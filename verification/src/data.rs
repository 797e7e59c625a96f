//! Ancillary data packets, read and written.
use crate::bits;
use crate::bitstream;
use crate::bitstream::{BitSink, BitSource};
use crate::error::{AncillaryMapError, IoError, IoErrorKind, MapFailure};
use crate::packet;
use crate::packet::AncillaryMeta;
use vstd::arithmetic::power2;
use vstd::prelude::*;

verus! {

fn io_error(kind: IoErrorKind) -> (error: AncillaryMapError)
    ensures
        error@ == MapFailure::Io(kind),
{
    AncillaryMapError::Io(IoError::new(kind))
}

/// Whether what `source` has read since byte `start_pos` is a multiple of four bytes.
fn reader_word_aligned(source: &mut BitSource<'_>, start_pos: u64) -> (aligned: bool)
    requires
        bitstream::bits_read(*old(source)) % 8 == 0,
        8 * start_pos <= bitstream::bits_read(*old(source)),
    ensures
        *final(source) == *old(source),
        aligned == ((bitstream::bits_read(*old(source)) / 8 - start_pos) % 4 == 0),
{
    (source.byte_position() - start_pos) % 4 == 0
}

/// Reads `BITS` bits, at most 16 of them.
fn read_short<const BITS: u32>(source: &mut BitSource<'_>) -> (result: Result<u16, IoErrorKind>)
    requires
        1 <= BITS <= 16,
        bitstream::bits_read(*old(source)) <= bitstream::source_bits(*old(source)).len(),
    ensures
        bitstream::source_bits(*final(source)) == bitstream::source_bits(*old(source)),
        match result {
            Ok(value) => {
                let from = bitstream::bits_read(*old(source));
                &&& from + BITS <= bitstream::source_bits(*old(source)).len()
                &&& value == bits::value_at(
                    bitstream::source_bits(*old(source)),
                    from as int,
                    BITS as nat,
                )
                &&& value < power2::pow2(BITS as nat)
                &&& bitstream::bits_read(*final(source)) == from + BITS
            },
            Err(kind) => {
                &&& bitstream::bits_read(*old(source)) + BITS > bitstream::source_bits(
                    *old(source),
                ).len()
                &&& kind == IoErrorKind::UnexpectedEof
            },
        },
{
    let ghost all = bitstream::source_bits(*source);
    let ghost from = bitstream::bits_read(*source);
    let value = source.read_bits::<BITS>()?;
    proof {
        bits::lemma_value_field(all.subrange(from as int, from + BITS));
        power2::lemma2_to64();
        if BITS < 16 {
            power2::lemma_pow2_strictly_increases(BITS as nat, 16);
        }
    }
    Ok(value as u16)
}

/// Reads up to the next byte boundary and says whether all the bits up to there are `expected`;
/// stops at the first that is not. In whole bytes the boundary is always reached.
fn read_padding(source: &mut BitSource<'_>, expected: bool) -> (result: Result<bool, IoErrorKind>)
    requires
        bitstream::source_bits(*old(source)).len() % 8 == 0,
        bitstream::bits_read(*old(source)) <= bitstream::source_bits(*old(source)).len(),
    ensures
        bitstream::source_bits(*final(source)) == bitstream::source_bits(*old(source)),
        ({
            let all = bitstream::source_bits(*old(source));
            let from = bitstream::bits_read(*old(source));
            let padding = bits::padding_len(from, 8);
            &&& from + padding <= all.len()
            &&& result matches Ok(padded) && {
                &&& padded == (all.subrange(from as int, (from + padding) as int) == bits::fill(
                    expected,
                    padding,
                ))
                &&& padded ==> bitstream::bits_read(*final(source)) == from + padding
            }
        }),
{
    let ghost all = bitstream::source_bits(*source);
    let ghost from = bitstream::bits_read(*source);
    let ghost padding = bits::padding_len(from, 8);
    while !source.byte_aligned()
        invariant
            bitstream::source_bits(*source) == all,
            all == bitstream::source_bits(*old(source)),
            from == bitstream::bits_read(*old(source)),
            all.len() % 8 == 0,
            from <= all.len(),
            padding == bits::padding_len(from, 8),
            from <= bitstream::bits_read(*source) <= from + padding,
            forall|i: int|
                from <= i < bitstream::bits_read(*source) ==> #[trigger] all[i] == expected,
        decreases from + padding - bitstream::bits_read(*source),
    {
        let ghost at = bitstream::bits_read(*source) as int;
        let bit = source.read_bit()?;
        if bit != expected {
            assert(all.subrange(from as int, (from + padding) as int)[at - from] != expected);
            assert(bits::fill(expected, padding)[at - from] == expected);
            return Ok(false);
        }
    }
    assert(all.subrange(from as int, (from + padding) as int) =~= bits::fill(expected, padding));
    Ok(true)
}

/// Read one ST 2038 packet, end padding included, from the front of `st2038`, and move `st2038`
/// past it. After an error `st2038` is where it was.
pub fn ancillary_meta_from_st2038_anc_packet(st2038: &mut &[u8]) -> (result: Result<
    AncillaryMeta,
    AncillaryMapError,
>)
    ensures
        match packet::read_st2038((*old(st2038))@) {
            Ok((read, len)) => {
                &&& result matches Ok(meta) && meta@ == read
                &&& len <= (*old(st2038))@.len()
                &&& (*final(st2038))@ == (*old(st2038))@.skip(len as int)
            },
            Err(failure) => {
                &&& result matches Err(error) && error@ == failure
                &&& *final(st2038) == *old(st2038)
            },
        },
{
    let input: &[u8] = *st2038;
    let mut r = BitSource::new(input);
    let ghost b = bits::bits_of(input@);
    proof {
        reveal(packet::read_st2038);
        power2::lemma2_to64();
    }
    let zeroes = match read_short::<6>(&mut r) {
        Ok(value) => value,
        Err(_) => return Err(AncillaryMapError::Invalid("read zero bits")),
    };
    if zeroes != 0 {
        return Err(AncillaryMapError::Invalid("ST 2038 leading zero bits must be zero"));
    }
    let c_not_y_channel = match r.read_bit() {
        Ok(value) => value,
        Err(_) => return Err(AncillaryMapError::Invalid("read C flag")),
    };
    let line = match read_short::<11>(&mut r) {
        Ok(value) => value,
        Err(_) => return Err(AncillaryMapError::Invalid("read line number")),
    };
    let offset = match read_short::<12>(&mut r) {
        Ok(value) => value,
        Err(_) => return Err(AncillaryMapError::Invalid("read horizontal offset")),
    };
    let did = match read_short::<10>(&mut r) {
        Ok(value) => value,
        Err(_) => return Err(AncillaryMapError::Invalid("read DID")),
    };
    let sdid_block_number = match read_short::<10>(&mut r) {
        Ok(value) => value,
        Err(_) => return Err(AncillaryMapError::Invalid("read SDID")),
    };
    let data_count = match read_short::<10>(&mut r) {
        Ok(value) => value,
        Err(_) => return Err(AncillaryMapError::Invalid("read data count")),
    };
    assert(data_count & 0xff == data_count % 256) by (bit_vector);
    let data_count8 = (data_count & 0xff) as usize;
    let ghost end = packet::content_end(b, 30);
    assert(packet::word_at(b, 30, 2) == data_count);

    let mut data: Vec<u16> = Vec::new();
    while data.len() < data_count8
        invariant
            b == bits::bits_of(input@),
            *st2038 == *old(st2038),
            input == *old(st2038),
            bitstream::source_bits(r) == b,
            data_count8 == packet::data_len_at(b, 30),
            end == packet::content_end(b, 30),
            data@.len() <= data_count8,
            bitstream::bits_read(r) == 60 + 10 * data@.len(),
            b.len() >= bitstream::bits_read(r),
            bits::value_at(b, 0, 6) == 0,
            forall|i: int|
                0 <= i < data@.len() ==> #[trigger] data@[i] == packet::word_at(b, 30, 3 + i),
        decreases data_count8 - data.len(),
    {
        proof {
            reveal(packet::read_st2038);
        }
        let udw = match read_short::<10>(&mut r) {
            Ok(value) => value,
            Err(_) => return Err(AncillaryMapError::Invalid("read user data word")),
        };
        data.push(udw);
    }
    let checksum = match read_short::<10>(&mut r) {
        Ok(value) => value,
        Err(_) => return Err(AncillaryMapError::Invalid("read checksum")),
    };

    // ST 2038 pads to a byte boundary with 1 bits.
    let ones = match read_padding(&mut r, true) {
        Ok(value) => value,
        Err(_) => return Err(AncillaryMapError::Invalid("read padding bit")),
    };
    if !ones {
        return Err(AncillaryMapError::Invalid("ST 2038 padding bits must be ones"));
    }
    let consumed = r.byte_position() as usize;
    *st2038 = vstd::slice::slice_subrange(input, consumed, input.len());
    assert(input@.subrange(consumed as int, input@.len() as int) =~= input@.skip(consumed as int));

    let meta = AncillaryMeta {
        c_not_y_channel,
        line,
        offset,
        did,
        sdid_block_number,
        data_count,
        data,
        checksum,
    };
    assert(meta@ =~= packet::packet_at(b, 6, 30));
    Ok(meta)
}

/// Reads zero bytes up to the next multiple of four bytes and says whether they all are zero;
/// stops at the first that is not.
fn read_word_padding(source: &mut BitSource<'_>, Ghost(bytes): Ghost<Seq<u8>>) -> (result: Result<
    bool,
    IoErrorKind,
>)
    requires
        bitstream::source_bits(*old(source)) == bits::bits_of(bytes),
        bitstream::bits_read(*old(source)) % 8 == 0,
        bitstream::bits_read(*old(source)) <= 8 * bytes.len(),
    ensures
        match packet::read_word_padding(bytes, bitstream::bits_read(*old(source)) / 8) {
            Ok(len) => {
                &&& result == Ok::<bool, IoErrorKind>(true)
                &&& bitstream::bits_read(*final(source)) == 8 * len
                &&& len <= bytes.len()
            },
            Err(MapFailure::Invalid(text)) => {
                &&& result == Ok::<bool, IoErrorKind>(false)
                &&& text == "RFC 8331 padding bytes must be zero"@
            },
            Err(MapFailure::Io(kind)) => result == Err::<bool, IoErrorKind>(kind),
        },
{
    let ghost from = bitstream::bits_read(*source) / 8;
    while !reader_word_aligned(source, 0)
        invariant
            bitstream::source_bits(*source) == bits::bits_of(bytes),
            bitstream::bits_read(*source) % 8 == 0,
            bitstream::bits_read(*source) <= 8 * bytes.len(),
            from == bitstream::bits_read(*old(source)) / 8,
            packet::read_word_padding(bytes, from) == packet::read_word_padding(
                bytes,
                bitstream::bits_read(*source) / 8,
            ),
        decreases bits::padding_len(bitstream::bits_read(*source) / 8, 4),
    {
        let ghost at = bitstream::bits_read(*source) / 8;
        let zero = source.read_bits::<8>()?;
        proof {
            bits::lemma_bits_of_byte(bytes, at as int);
            assert(zero == bytes[at as int]);
        }
        if zero != 0 {
            return Ok(false);
        }
        assert(bitstream::bits_read(*source) / 8 == at + 1);
    }
    Ok(true)
}

/// Read one RFC 8331 packet, end padding included, from the front of `smpte291`, and move
/// `smpte291` past it. After an error `smpte291` is where it was.
pub fn ancillary_meta_from_smpte291_anc_packet(smpte291: &mut &[u8]) -> (result: Result<
    AncillaryMeta,
    AncillaryMapError,
>)
    ensures
        match packet::read_rfc8331((*old(smpte291))@) {
            Ok((read, len)) => {
                &&& result matches Ok(meta) && meta@ == read
                &&& len <= (*old(smpte291))@.len()
                &&& (*final(smpte291))@ == (*old(smpte291))@.skip(len as int)
            },
            Err(failure) => {
                &&& result matches Err(error) && error@ == failure
                &&& *final(smpte291) == *old(smpte291)
            },
        },
{
    let input: &[u8] = *smpte291;
    let mut r = BitSource::new(input);
    let ghost b = bits::bits_of(input@);
    proof {
        reveal(packet::read_rfc8331);
        power2::lemma2_to64();
    }
    let c_not_y_channel = match r.read_bit() {
        Ok(value) => value,
        Err(kind) => return Err(io_error(kind)),
    };
    let line = match read_short::<11>(&mut r) {
        Ok(value) => value,
        Err(kind) => return Err(io_error(kind)),
    };
    let offset = match read_short::<12>(&mut r) {
        Ok(value) => value,
        Err(kind) => return Err(io_error(kind)),
    };
    let _s = match read_short::<1>(&mut r) {
        Ok(value) => value,
        Err(kind) => return Err(io_error(kind)),
    };
    let _stream_num = match read_short::<7>(&mut r) {
        Ok(value) => value,
        Err(kind) => return Err(io_error(kind)),
    };
    let did = match read_short::<10>(&mut r) {
        Ok(value) => value,
        Err(kind) => return Err(io_error(kind)),
    };
    let sdid_block_number = match read_short::<10>(&mut r) {
        Ok(value) => value,
        Err(kind) => return Err(io_error(kind)),
    };
    let data_count = match read_short::<10>(&mut r) {
        Ok(value) => value,
        Err(kind) => return Err(io_error(kind)),
    };
    assert(data_count & 0xff == data_count % 256) by (bit_vector);
    let data_count8 = (data_count & 0xff) as usize;
    assert(packet::word_at(b, 32, 2) == data_count);

    let mut data: Vec<u16> = Vec::new();
    while data.len() < data_count8
        invariant
            b == bits::bits_of(input@),
            *smpte291 == *old(smpte291),
            input == *old(smpte291),
            bitstream::source_bits(r) == b,
            data_count8 == packet::data_len_at(b, 32),
            data@.len() <= data_count8,
            bitstream::bits_read(r) == 62 + 10 * data@.len(),
            b.len() >= bitstream::bits_read(r),
            forall|i: int|
                0 <= i < data@.len() ==> #[trigger] data@[i] == packet::word_at(b, 32, 3 + i),
        decreases data_count8 - data.len(),
    {
        proof {
            reveal(packet::read_rfc8331);
        }
        let udw = match read_short::<10>(&mut r) {
            Ok(value) => value,
            Err(kind) => return Err(io_error(kind)),
        };
        data.push(udw);
    }
    let checksum = match read_short::<10>(&mut r) {
        Ok(value) => value,
        Err(kind) => return Err(io_error(kind)),
    };

    // RFC 8331 pads to 4-byte boundary with zero bits.
    let zeros = match read_padding(&mut r, false) {
        Ok(value) => value,
        Err(kind) => return Err(io_error(kind)),
    };
    if !zeros {
        return Err(AncillaryMapError::Invalid("RFC 8331 padding bits must be zero"));
    }
    let zeros = match read_word_padding(&mut r, Ghost(input@)) {
        Ok(value) => value,
        Err(kind) => return Err(io_error(kind)),
    };
    if !zeros {
        return Err(AncillaryMapError::Invalid("RFC 8331 padding bytes must be zero"));
    }

    let consumed = r.byte_position() as usize;
    *smpte291 = vstd::slice::slice_subrange(input, consumed, input.len());
    assert(input@.subrange(consumed as int, input@.len() as int) =~= input@.skip(consumed as int));

    let meta = AncillaryMeta {
        c_not_y_channel,
        line,
        offset,
        did,
        sdid_block_number,
        data_count,
        data,
        checksum,
    };
    assert(meta@ =~= packet::packet_at(b, 0, 32));
    Ok(meta)
}

/// Whether what `sink` holds from byte `start_pos` on is a multiple of four bytes.
fn writer_word_aligned(sink: &mut BitSink, start_pos: u64) -> (aligned: bool)
    requires
        bitstream::written_bits(*old(sink)).len() % 8 == 0,
        8 * start_pos <= bitstream::written_bits(*old(sink)).len(),
    ensures
        *final(sink) == *old(sink),
        aligned == ((bitstream::written_bits(*old(sink)).len() / 8 - start_pos) % 4 == 0),
{
    (sink.byte_position() - start_pos) % 4 == 0
}

/// Writes DID, SDID, data count, user data words and checksum of `meta`, up to the first that is
/// too large for ten bits; the error names that one.
fn write_words(sink: &mut BitSink, meta: &AncillaryMeta) -> (result: Result<(), &'static str>)
    ensures
        ({
            let words = meta@.words();
            let wide = packet::first_wide(words);
            match result {
                Ok(_) => {
                    &&& wide == words.len()
                    &&& bitstream::written_bits(*final(sink)) == bitstream::written_bits(*old(sink))
                        + packet::word_bits(words)
                },
                Err(label) => {
                    &&& label@ == packet::word_label(meta@, wide)
                    &&& wide < words.len()
                    &&& bitstream::written_bits(*final(sink)) == bitstream::written_bits(*old(sink))
                        + packet::word_bits(words).take(10 * wide as int)
                },
            }
        }),
{
    let ghost base = bitstream::written_bits(*sink);
    let ghost words = meta@.words();
    let ghost all = packet::word_bits(words);
    let len: usize = meta.data.len();
    proof {
        power2::lemma2_to64();
        packet::lemma_first_wide(words);
        packet::lemma_word_bits(words, 0);
        packet::lemma_word_bits(words, 1);
        packet::lemma_word_bits(words, 2);
        assert(base + all.take(0) =~= base);
        assert(words[0] == meta.did && words[1] == meta.sdid_block_number && words[2]
            == meta.data_count && words[3 + len] == meta.checksum);
    }
    if sink.write_bits::<10>(meta.did as u32).is_err() {
        return Err("write DID");
    }
    assert(bitstream::written_bits(*sink) =~= base + all.take(10));
    if sink.write_bits::<10>(meta.sdid_block_number as u32).is_err() {
        return Err("write SDID");
    }
    assert(bitstream::written_bits(*sink) =~= base + all.take(20));
    if sink.write_bits::<10>(meta.data_count as u32).is_err() {
        return Err("write data_count");
    }
    assert(bitstream::written_bits(*sink) =~= base + all.take(30));
    let mut i: usize = 0;
    while i < len
        invariant
            i <= len == meta.data@.len(),
            base == bitstream::written_bits(*old(sink)),
            words == meta@.words(),
            all == packet::word_bits(words),
            forall|k: int| 0 <= k < 3 + i ==> #[trigger] words[k] < 0x400,
            bitstream::written_bits(*sink) == base + all.take(10 * (3 + i)),
        decreases len - i,
    {
        proof {
            power2::lemma2_to64();
            packet::lemma_first_wide(words);
            packet::lemma_word_bits(words, (3 + i) as nat);
            assert(words[3 + i] == meta.data@[i as int]);
        }
        if sink.write_bits::<10>(meta.data[i] as u32).is_err() {
            return Err("write user data word");
        }
        assert(bitstream::written_bits(*sink) =~= base + all.take(10 * (3 + i + 1)));
        i += 1;
    }
    proof {
        packet::lemma_word_bits(words, (3 + len) as nat);
    }
    if sink.write_bits::<10>(meta.checksum as u32).is_err() {
        return Err("write checksum");
    }
    assert(bitstream::written_bits(*sink) =~= base + all.take(10 * (4 + len)));
    assert(all.take(10 * (4 + len)) =~= all);
    Ok(())
}

/// Writes C flag, line number and horizontal offset of `meta`, up to the first that is too large
/// for its place; the error names that one.
fn write_location(sink: &mut BitSink, meta: &AncillaryMeta) -> (result: Result<(), &'static str>)
    ensures
        meta@.location_bits().len() == 24,
        match result {
            Ok(_) => {
                &&& meta.line < 0x800
                &&& meta.offset < 0x1000
                &&& bitstream::written_bits(*final(sink)) == bitstream::written_bits(*old(sink))
                    + meta@.location_bits()
            },
            Err(label) => if meta.line >= 0x800 {
                &&& label@ == "write line"@
                &&& bitstream::written_bits(*final(sink)) == bitstream::written_bits(*old(sink))
                    + meta@.location_bits().take(1)
            } else {
                &&& meta.offset >= 0x1000
                &&& label@ == "write horizontal offset"@
                &&& bitstream::written_bits(*final(sink)) == bitstream::written_bits(*old(sink))
                    + meta@.location_bits().take(12)
            },
        },
{
    let ghost base = bitstream::written_bits(*sink);
    let ghost location = meta@.location_bits();
    proof {
        power2::lemma2_to64();
        bits::lemma_field_len(11, meta.line as nat);
        bits::lemma_field_len(12, meta.offset as nat);
    }
    if sink.write_bit(meta.c_not_y_channel).is_err() {
        return Err("write C");
    }
    assert(bitstream::written_bits(*sink) =~= base + location.take(1));
    if sink.write_bits::<11>(meta.line as u32).is_err() {
        return Err("write line");
    }
    assert(bitstream::written_bits(*sink) =~= base + location.take(12));
    if sink.write_bits::<12>(meta.offset as u32).is_err() {
        return Err("write horizontal offset");
    }
    assert(bitstream::written_bits(*sink) =~= base + location);
    Ok(())
}

/// Writes zero bytes until what `sink` holds from byte `start_pos` on is a multiple of four bytes.
fn write_word_padding(sink: &mut BitSink, start_pos: u64) -> (result: Result<(), IoErrorKind>)
    requires
        bitstream::written_bits(*old(sink)).len() % 8 == 0,
        8 * start_pos <= bitstream::written_bits(*old(sink)).len(),
    ensures
        result is Ok,
        bitstream::written_bits(*final(sink)) == bitstream::written_bits(*old(sink)) + bits::fill(
            false,
            bits::padding_len(
                (bitstream::written_bits(*old(sink)).len() - 8 * start_pos) as nat,
                32,
            ),
        ),
{
    let ghost base = bitstream::written_bits(*sink);
    let ghost padding = bits::padding_len((base.len() - 8 * start_pos) as nat, 32);
    let ghost mut done: nat = 0;
    assert(bitstream::written_bits(*sink) =~= base + bits::fill(false, 0));
    while !writer_word_aligned(sink, start_pos)
        invariant
            base == bitstream::written_bits(*old(sink)),
            base.len() % 8 == 0,
            8 * start_pos <= base.len(),
            padding == bits::padding_len((base.len() - 8 * start_pos) as nat, 32),
            done <= padding,
            done % 8 == 0,
            bitstream::written_bits(*sink) == base + bits::fill(false, done),
        decreases padding - done,
    {
        proof {
            bits::lemma_padding_progress((base.len() - 8 * start_pos) as nat, done);
            assert(done < padding);
            power2::lemma2_to64();
            bits::lemma_field_zero(8);
        }
        sink.write_bits::<8>(0)?;
        proof {
            done = done + 8;
            assert(bitstream::written_bits(*sink) =~= base + bits::fill(false, done));
        }
    }
    proof {
        bits::lemma_padding_progress((base.len() - 8 * start_pos) as nat, done);
    }
    Ok(())
}

/// Writes `S` and `StreamNum`, which ST 2038 does not have: eight zero bits.
fn write_stream(sink: &mut BitSink) -> (result: Result<(), &'static str>)
    ensures
        result is Ok,
        bitstream::written_bits(*final(sink)) == bitstream::written_bits(*old(sink)) + bits::fill(
            false,
            8,
        ),
{
    let ghost base = bitstream::written_bits(*sink);
    proof {
        power2::lemma2_to64();
        bits::lemma_field_zero(7);
    }
    if sink.write_bit(false).is_err() {
        return Err("write S");
    }
    if sink.write_bits::<7>(0).is_err() {
        return Err("write StreamNum");
    }
    assert(bitstream::written_bits(*sink) =~= base + bits::fill(false, 8));
    Ok(())
}

/// Writes `meta` as RFC 8331, up to its padding.
fn write_rfc8331_content(sink: &mut BitSink, meta: &AncillaryMeta) -> (result: Result<
    (),
    &'static str,
>)
    ensures
        match packet::rfc8331_failure(meta@) {
            None => {
                &&& result is Ok
                &&& bitstream::written_bits(*final(sink)) == bitstream::written_bits(*old(sink))
                    + meta@.rfc8331_content()
            },
            Some((at, failure)) => {
                &&& result matches Err(label) && failure == MapFailure::Invalid(label@)
                &&& bitstream::written_bits(*final(sink)) == bitstream::written_bits(*old(sink))
                    + meta@.rfc8331_content().take(at as int)
            },
        },
{
    let ghost base = bitstream::written_bits(*sink);
    let ghost content = meta@.rfc8331_content();
    let ghost location = meta@.location_bits();
    if let Err(label) = write_location(sink, meta) {
        assert(location.take(1) =~= content.take(1));
        assert(location.take(12) =~= content.take(12));
        return Err(label);
    }
    write_stream(sink)?;
    if let Err(label) = write_words(sink, meta) {
        proof {
            let wide = packet::first_wide(meta@.words());
            assert(bitstream::written_bits(*sink) =~= base + content.take((32 + 10 * wide) as int));
        }
        return Err(label);
    }
    assert(bitstream::written_bits(*sink) =~= base + content);
    Ok(())
}

/// Writes `meta` as RFC 8331.
fn write_rfc8331(sink: &mut BitSink, meta: &AncillaryMeta) -> (result: Result<(), AncillaryMapError>)
    requires
        bitstream::written_bits(*old(sink)).len() % 8 == 0,
    ensures
        match packet::rfc8331_failure(meta@) {
            None => {
                &&& result is Ok
                &&& bitstream::written_bits(*final(sink)) == bitstream::written_bits(*old(sink))
                    + meta@.rfc8331_bits()
            },
            Some((at, failure)) => {
                &&& result matches Err(error) && error@ == failure
                &&& bitstream::written_bits(*final(sink)) == bitstream::written_bits(*old(sink))
                    + meta@.rfc8331_content().take(at as int)
            },
        },
{
    let ghost base = bitstream::written_bits(*sink);
    let ghost content = meta@.rfc8331_content();
    let start_pos = sink.byte_position();
    if let Err(label) = write_rfc8331_content(sink, meta) {
        return Err(AncillaryMapError::Invalid(label));
    }
    proof {
        bits::lemma_padding_offset(base.len(), content.len());
        bits::lemma_padding_steps(content.len());
    }
    if sink.byte_align().is_err() {
        return Err(AncillaryMapError::Invalid("write word_align (bits)"));
    }
    if write_word_padding(sink, start_pos).is_err() {
        return Err(AncillaryMapError::Invalid("write word_align (bytes)"));
    }
    assert(bitstream::written_bits(*sink) =~= base + meta@.rfc8331_bits());
    Ok(())
}

/// Writes `meta` as ST 2038.
fn write_st2038(sink: &mut BitSink, meta: &AncillaryMeta) -> (result: Result<(), AncillaryMapError>)
    requires
        bitstream::written_bits(*old(sink)).len() % 8 == 0,
    ensures
        match packet::st2038_failure(meta@) {
            None => {
                &&& result is Ok
                &&& bitstream::written_bits(*final(sink)) == bitstream::written_bits(*old(sink))
                    + meta@.st2038_bits()
            },
            Some((at, failure)) => {
                &&& result matches Err(error) && error@ == failure
                &&& bitstream::written_bits(*final(sink)) == bitstream::written_bits(*old(sink))
                    + meta@.st2038_content().take(at as int)
            },
        },
{
    let ghost base = bitstream::written_bits(*sink);
    let ghost content = meta@.st2038_content();
    let ghost location = meta@.location_bits();
    proof {
        power2::lemma2_to64();
        packet::lemma_first_wide(meta@.words());
        bits::lemma_field_zero(6);
    }
    if let Err(kind) = sink.write_bits::<6>(0) {
        return Err(io_error(kind));
    }
    if write_location(sink, meta).is_err() {
        assert(bits::fill(false, 6) + location.take(1) =~= content.take(7));
        assert(bits::fill(false, 6) + location.take(12) =~= content.take(18));
        assert(bitstream::written_bits(*sink) =~= base + content.take(7)
            || bitstream::written_bits(*sink) =~= base + content.take(18));
        return Err(io_error(IoErrorKind::InvalidInput));
    }
    if write_words(sink, meta).is_err() {
        proof {
            let wide = packet::first_wide(meta@.words());
            assert(bitstream::written_bits(*sink) =~= base + content.take((30 + 10 * wide) as int));
        }
        return Err(io_error(IoErrorKind::InvalidInput));
    }
    assert(bitstream::written_bits(*sink) =~= base + content);
    let ghost padding = bits::padding_len(content.len(), 8);
    let ghost mut done: nat = 0;
    assert(bitstream::written_bits(*sink) =~= base + content + bits::fill(true, 0));
    while !sink.byte_aligned()
        invariant
            packet::st2038_failure(meta@) is None,
            content == meta@.st2038_content(),
            base == bitstream::written_bits(*old(sink)),
            base.len() % 8 == 0,
            padding == bits::padding_len(content.len(), 8),
            done <= padding,
            bitstream::written_bits(*sink) == base + content + bits::fill(true, done),
        decreases padding - done,
    {
        if let Err(kind) = sink.write_bit(true) {
            return Err(io_error(kind));
        }
        proof {
            done = done + 1;
            assert(bitstream::written_bits(*sink) =~= base + content + bits::fill(true, done));
        }
    }
    assert(bitstream::written_bits(*sink) =~= base + meta@.st2038_bits());
    Ok(())
}

/// Append `meta` to `smpte291` as one RFC 8331 packet. After an error `smpte291` ends with the
/// whole bytes that came before the field at fault.
pub fn smpte291_anc_packet_from_ancillary_meta(
    smpte291: &mut Vec<u8>,
    meta: &AncillaryMeta,
) -> (result: Result<(), AncillaryMapError>)
    ensures
        match packet::rfc8331_failure(meta@) {
            None => {
                &&& result is Ok
                &&& final(smpte291)@ == old(smpte291)@ + meta@.rfc8331()
            },
            Some((at, failure)) => {
                &&& result matches Err(error) && error@ == failure
                &&& final(smpte291)@ == old(smpte291)@ + bits::bytes_of(
                    meta@.rfc8331_content().take(at as int),
                )
            },
        },
{
    let mut bytes: Vec<u8> = Vec::new();
    std::mem::swap(&mut bytes, smpte291);
    let ghost base = bytes@;
    let mut w = BitSink::new(bytes);
    let result = write_rfc8331(&mut w, meta);
    *smpte291 = w.into_bytes();
    proof {
        reveal(packet::Packet::rfc8331);
        bits::lemma_bytes_of_bits_of(base, meta@.rfc8331_bits());
        if let Some((at, _)) = packet::rfc8331_failure(meta@) {
            bits::lemma_bytes_of_bits_of(base, meta@.rfc8331_content().take(at as int));
        }
    }
    result
}

/// Append `meta` to `st2038` as one ST 2038 packet. After an error `st2038` ends with the whole
/// bytes that came before the field at fault.
pub fn st2038_anc_packet_from_ancillary_meta(
    st2038: &mut Vec<u8>,
    meta: &AncillaryMeta,
) -> (result: Result<(), AncillaryMapError>)
    ensures
        match packet::st2038_failure(meta@) {
            None => {
                &&& result is Ok
                &&& final(st2038)@ == old(st2038)@ + meta@.st2038()
            },
            Some((at, failure)) => {
                &&& result matches Err(error) && error@ == failure
                &&& final(st2038)@ == old(st2038)@ + bits::bytes_of(
                    meta@.st2038_content().take(at as int),
                )
            },
        },
{
    let mut bytes: Vec<u8> = Vec::new();
    std::mem::swap(&mut bytes, st2038);
    let ghost base = bytes@;
    let mut w = BitSink::new(bytes);
    let result = write_st2038(&mut w, meta);
    *st2038 = w.into_bytes();
    proof {
        reveal(packet::Packet::st2038);
        bits::lemma_bytes_of_bits_of(base, meta@.st2038_bits());
        if let Some((at, _)) = packet::st2038_failure(meta@) {
            bits::lemma_bytes_of_bits_of(base, meta@.st2038_content().take(at as int));
        }
    }
    result
}

/// Read one ST 2038 packet, end padding included, from the front of `st2038`, move `st2038` past
/// it, and append it to `smpte291` as RFC 8331. An error changes neither.
pub fn smpte291_from_st2038_anc_packet(
    smpte291: &mut Vec<u8>,
    st2038: &mut &[u8],
) -> (result: Result<(), AncillaryMapError>)
    ensures
        match packet::read_st2038((*old(st2038))@) {
            Ok((read, len)) => {
                &&& result is Ok
                &&& len <= (*old(st2038))@.len()
                &&& (*final(st2038))@ == (*old(st2038))@.skip(len as int)
                &&& final(smpte291)@ == old(smpte291)@ + read.rfc8331()
            },
            Err(failure) => {
                &&& result matches Err(error) && error@ == failure
                &&& *final(st2038) == *old(st2038)
                &&& final(smpte291)@ == old(smpte291)@
            },
        },
{
    proof {
        packet::lemma_read_st2038((*st2038)@);
    }
    let meta = ancillary_meta_from_st2038_anc_packet(st2038)?;
    proof {
        packet::lemma_fits_no_failure(meta@);
    }
    smpte291_anc_packet_from_ancillary_meta(smpte291, &meta)?;
    Ok(())
}

/// Read one RFC 8331 packet, end padding included, from the front of `smpte291`, move `smpte291`
/// past it, and append it to `st2038` as ST 2038. An error changes neither.
pub fn st2038_from_smpte291_anc_packet(
    st2038: &mut Vec<u8>,
    smpte291: &mut &[u8],
) -> (result: Result<(), AncillaryMapError>)
    ensures
        match packet::read_rfc8331((*old(smpte291))@) {
            Ok((read, len)) => {
                &&& result is Ok
                &&& len <= (*old(smpte291))@.len()
                &&& (*final(smpte291))@ == (*old(smpte291))@.skip(len as int)
                &&& final(st2038)@ == old(st2038)@ + read.st2038()
            },
            Err(failure) => {
                &&& result matches Err(error) && error@ == failure
                &&& *final(smpte291) == *old(smpte291)
                &&& final(st2038)@ == old(st2038)@
            },
        },
{
    proof {
        packet::lemma_read_rfc8331((*smpte291)@);
    }
    let meta = ancillary_meta_from_smpte291_anc_packet(smpte291)?;
    proof {
        packet::lemma_fits_no_failure(meta@);
    }
    st2038_anc_packet_from_ancillary_meta(st2038, &meta)?;
    Ok(())
}

} // verus!
