//! MXL `video/smpte291` data grains and GStreamer `meta/x-st-2038` buffers.
//!
//! A grain stores bytes from the RFC 8331 *Length* field onward: a header of six bytes, then the
//! packets, then zeros up to the size of a grain. A `meta/x-st-2038` buffer is a run of ST 2038
//! packets.
use crate::bits;
use crate::bitstream;
use crate::bitstream::{BitSink, BitSource};
use crate::data::{smpte291_from_st2038_anc_packet, st2038_from_smpte291_anc_packet};
use crate::error::{AncillaryMapError, IoError, IoErrorKind, MapFailure};
use crate::packet;
use vstd::arithmetic::power2;
use vstd::prelude::*;

verus! {

/// The size of an MXL data grain in bytes.
pub const MXL_DATA_FORMAT_GRAIN_SIZE: usize = 4096;

/// Octets in the RFC 8331 fixed prefix before the packets: `Length` (16 bits), `ANC_Count` (8),
/// `F` (2), `reserved` (22).
pub const HEADER_SIZE: usize = 6;

/// A grain that is being built: RFC 8331 packets, and how many they are.
#[verifier::ext_equal]
pub struct GrainDraft {
    pub payload: Seq<u8>,
    pub anc_count: nat,
}

/// `count` zero bytes.
pub open spec fn zero_bytes(count: nat) -> Seq<u8> {
    Seq::new(count, |i: int| 0u8)
}

/// A draft without packets.
pub open spec fn empty_draft() -> GrainDraft {
    GrainDraft { payload: Seq::empty(), anc_count: 0 }
}

/// What appending the ST 2038 packets in `st2038` makes of `draft`, and why not all of them were
/// appended, if so.
pub open spec fn append_packets(draft: GrainDraft, st2038: Seq<u8>) -> (
    GrainDraft,
    Result<(), MapFailure>,
)
    decreases st2038.len(),
{
    if st2038.len() == 0 {
        (draft, Ok(()))
    } else if draft.anc_count >= 255 {
        (draft, Err(MapFailure::Invalid("more than 255 ST 2038 ANC packets in one grain"@)))
    } else {
        match packet::read_st2038(st2038) {
            Ok((read, len)) => {
                proof {
                    packet::lemma_read_st2038(st2038);
                }
                append_packets(
                    GrainDraft {
                        payload: draft.payload + read.rfc8331(),
                        anc_count: draft.anc_count + 1,
                    },
                    st2038.skip(len as int),
                )
            },
            Err(failure) => (draft, Err(failure)),
        }
    }
}

/// The grain that `draft` makes.
pub open spec fn finish_grain(draft: GrainDraft) -> Result<Seq<u8>, MapFailure> {
    let len = draft.payload.len();
    if len > 0xffff {
        Err(MapFailure::Invalid("RFC 8331 Length overflow"@))
    } else if HEADER_SIZE + len > MXL_DATA_FORMAT_GRAIN_SIZE {
        Err(MapFailure::Invalid("RFC 8331 payload exceeds MXL data grain size"@))
    } else {
        Ok(
            seq![(len / 256) as u8, (len % 256) as u8, draft.anc_count as u8, 0u8, 0u8, 0u8]
                + draft.payload + zero_bytes(
                (MXL_DATA_FORMAT_GRAIN_SIZE - HEADER_SIZE - len) as nat,
            ),
        )
    }
}

/// The grain that the buffer `st2038` makes.
pub open spec fn grain_of(st2038: Seq<u8>) -> Result<Seq<u8>, MapFailure> {
    match append_packets(empty_draft(), st2038) {
        (draft, Ok(_)) => finish_grain(draft),
        (_, Err(failure)) => Err(failure),
    }
}

/// What taking `count` RFC 8331 packets from the front of `smpte291` gives: `st2038` with those
/// packets appended, and what is left of `smpte291`.
pub open spec fn take_packets(st2038: Seq<u8>, smpte291: Seq<u8>, count: nat) -> Result<
    (Seq<u8>, Seq<u8>),
    MapFailure,
>
    decreases count,
{
    if count == 0 {
        Ok((st2038, smpte291))
    } else {
        match packet::read_rfc8331(smpte291) {
            Ok((read, len)) => take_packets(
                st2038 + read.st2038(),
                smpte291.skip(len as int),
                (count - 1) as nat,
            ),
            Err(failure) => Err(failure),
        }
    }
}

/// The buffer that `grain` holds. `F` and `reserved` are not looked at.
pub open spec fn buffer_of(grain: Seq<u8>) -> Result<Seq<u8>, MapFailure> {
    let len = grain[0] * 256 + grain[1];
    if grain.len() < HEADER_SIZE {
        Err(MapFailure::Io(IoErrorKind::UnexpectedEof))
    } else if grain.len() < HEADER_SIZE + len {
        Err(MapFailure::Invalid("RFC 8331 Length exceeds MXL data grain size"@))
    } else {
        match take_packets(
            Seq::empty(),
            grain.subrange(HEADER_SIZE as int, HEADER_SIZE + len),
            grain[2] as nat,
        ) {
            Ok((st2038, rest)) => if rest.len() == 0 {
                Ok(st2038)
            } else {
                Err(MapFailure::Invalid("RFC 8331 Length does not match ANC_Count"@))
            },
            Err(failure) => Err(failure),
        }
    }
}

/// Builds an MXL `video/smpte291` grain from one or more GStreamer `meta/x-st-2038` buffers, each
/// of which may hold several ST 2038 packets.
pub struct MxlSmpte291GrainBuilder {
    smpte291: Vec<u8>,
    anc_count: u8,
}

impl View for MxlSmpte291GrainBuilder {
    type V = GrainDraft;

    closed spec fn view(&self) -> GrainDraft {
        GrainDraft {
            payload: self.smpte291@.skip(HEADER_SIZE as int),
            anc_count: self.anc_count as nat,
        }
    }
}

impl MxlSmpte291GrainBuilder {
    /// The builder holds a header, all zero so far, before its packets.
    pub closed spec fn well_formed(&self) -> bool {
        &&& self.smpte291@.len() >= HEADER_SIZE
        &&& self.smpte291@.take(HEADER_SIZE as int) == zero_bytes(HEADER_SIZE as nat)
    }

    pub fn new() -> (result: Result<Self, AncillaryMapError>)
        ensures
            result matches Ok(builder) && builder.well_formed() && builder@ == empty_draft(),
    {
        let mut w = BitSink::new(Vec::new());
        proof {
            power2::lemma2_to64();
            bits::lemma_field_zero(16);
            bits::lemma_field_zero(8);
            bits::lemma_field_zero(2);
            bits::lemma_field_zero(22);
        }
        // Length and ANC_Count (set in `into_padded_grain`), F, reserved.
        if let Err(kind) = w.write_bits::<16>(0) {
            return Err(AncillaryMapError::Io(IoError::new(kind)));
        }
        if let Err(kind) = w.write_bits::<8>(0) {
            return Err(AncillaryMapError::Io(IoError::new(kind)));
        }
        if let Err(kind) = w.write_bits::<2>(0) {
            return Err(AncillaryMapError::Io(IoError::new(kind)));
        }
        if let Err(kind) = w.write_bits::<22>(0) {
            return Err(AncillaryMapError::Io(IoError::new(kind)));
        }
        proof {
            lemma_zero_bytes(6);
            assert(bitstream::written_bits(w) =~= bits::fill(false, 48));
        }
        let smpte291 = w.into_bytes();
        let builder = MxlSmpte291GrainBuilder { smpte291, anc_count: 0 };
        assert(smpte291@.take(6) =~= zero_bytes(6));
        assert(builder@ =~= empty_draft());
        Ok(builder)
    }

    /// Append the ST 2038 packets in `st2038`. After an error those before the one at fault have
    /// been appended.
    pub fn append_st2038_packets(&mut self, st2038: &[u8]) -> (result: Result<
        (),
        AncillaryMapError,
    >)
        requires
            old(self).well_formed(),
        ensures
            final(self).well_formed(),
            final(self)@ == append_packets(old(self)@, st2038@).0,
            match append_packets(old(self)@, st2038@).1 {
                Ok(_) => result is Ok,
                Err(failure) => result matches Err(error) && error@ == failure,
            },
    {
        let mut remaining: &[u8] = st2038;
        while !remaining.is_empty()
            invariant
                self.well_formed(),
                append_packets(old(self)@, st2038@) == append_packets(self@, remaining@),
            decreases remaining@.len(),
        {
            if self.anc_count == u8::MAX {
                return Err(
                    AncillaryMapError::Invalid("more than 255 ST 2038 ANC packets in one grain"),
                );
            }
            let ghost before = *self;
            let ghost rest = remaining@;
            proof {
                packet::lemma_read_st2038(remaining@);
            }
            if let Err(error) = smpte291_from_st2038_anc_packet(&mut self.smpte291, &mut remaining) {
                assert(self@ =~= before@);
                return Err(error);
            }
            self.anc_count = self.anc_count + 1;
            proof {
                assert(self.smpte291@.take(6) =~= before.smpte291@.take(6));
                assert(self@ =~= GrainDraft {
                    payload: before@.payload + packet::read_st2038(rest)->Ok_0.0.rfc8331(),
                    anc_count: before@.anc_count + 1,
                });
            }
        }
        Ok(())
    }

    /// The grain: the header filled in, and zeros up to the size of a grain.
    pub fn into_padded_grain(self) -> (result: Result<Vec<u8>, AncillaryMapError>)
        requires
            self.well_formed(),
        ensures
            match finish_grain(self@) {
                Ok(grain) => result matches Ok(bytes) && bytes@ == grain,
                Err(failure) => result matches Err(error) && error@ == failure,
            },
    {
        let ghost payload = self@.payload;
        let mut grain = self.smpte291;
        let length = grain.len() - HEADER_SIZE;
        if length > 0xffff {
            return Err(AncillaryMapError::Invalid("RFC 8331 Length overflow"));
        }
        grain.set(0, (length / 256) as u8);
        grain.set(1, (length % 256) as u8);
        grain.set(2, self.anc_count);
        proof {
            assert(payload.len() == length);
            let header = seq![
                (length / 256) as u8,
                (length % 256) as u8,
                self.anc_count,
                0u8,
                0u8,
                0u8,
            ];
            let before = self.smpte291@;
            assert(before[3] == before.take(6)[3] && before[4] == before.take(6)[4] && before[5]
                == before.take(6)[5]);
            assert(grain@ =~= header + payload);
        }
        pad_grain(&mut grain)?;
        assert(grain@ =~= finish_grain(self@)->Ok_0);
        Ok(grain)
    }
}

/// Make an MXL `video/smpte291` data grain from a GStreamer `meta/x-st-2038` buffer.
pub fn mxl_smpte291_grain_from_gst_st2038(st2038: &[u8]) -> (result: Result<
    Vec<u8>,
    AncillaryMapError,
>)
    ensures
        match grain_of(st2038@) {
            Ok(grain) => result matches Ok(bytes) && bytes@ == grain,
            Err(failure) => result matches Err(error) && error@ == failure,
        },
{
    let mut builder = MxlSmpte291GrainBuilder::new()?;
    builder.append_st2038_packets(st2038)?;
    builder.into_padded_grain()
}

/// Make a GStreamer `meta/x-st-2038` buffer from an MXL `video/smpte291` data grain.
pub fn gst_st2038_from_mxl_smpte291_grain(smpte291: &[u8]) -> (result: Result<
    Vec<u8>,
    AncillaryMapError,
>)
    ensures
        match buffer_of(smpte291@) {
            Ok(st2038) => result matches Ok(bytes) && bytes@ == st2038,
            Err(failure) => result matches Err(error) && error@ == failure,
        },
{
    let mut r = BitSource::new(smpte291);
    let length = match r.read_bits::<16>() {
        Ok(value) => value as usize,
        Err(kind) => return Err(AncillaryMapError::Io(IoError::new(kind))),
    };
    let anc_count = match r.read_bits::<8>() {
        Ok(value) => value as usize,
        Err(kind) => return Err(AncillaryMapError::Io(IoError::new(kind))),
    };
    let _f = match r.read_bits::<2>() {
        Ok(value) => value,
        Err(kind) => return Err(AncillaryMapError::Io(IoError::new(kind))),
    };
    let _reserved = match r.read_bits::<22>() {
        Ok(value) => value,
        Err(kind) => return Err(AncillaryMapError::Io(IoError::new(kind))),
    };
    proof {
        lemma_length_field(smpte291@);
        bits::lemma_bits_of_byte(smpte291@, 2);
    }
    let header_len = r.byte_position() as usize;
    if smpte291.len() - header_len < length {
        return Err(AncillaryMapError::Invalid("RFC 8331 Length exceeds MXL data grain size"));
    }
    let mut remaining: &[u8] = vstd::slice::slice_subrange(
        smpte291,
        header_len,
        header_len + length,
    );
    let ghost packets = remaining@;

    let mut st2038: Vec<u8> = Vec::new();
    let mut taken: usize = 0;
    while taken < anc_count
        invariant
            taken <= anc_count,
            take_packets(Seq::empty(), packets, anc_count as nat) == take_packets(
                st2038@,
                remaining@,
                (anc_count - taken) as nat,
            ),
            smpte291@.len() >= HEADER_SIZE,
            smpte291@.len() >= HEADER_SIZE + length,
            length == smpte291@[0] * 256 + smpte291@[1],
            anc_count == smpte291@[2],
            packets == smpte291@.subrange(HEADER_SIZE as int, HEADER_SIZE + length),
        decreases anc_count - taken,
    {
        st2038_from_smpte291_anc_packet(&mut st2038, &mut remaining)?;
        taken += 1;
    }
    if !remaining.is_empty() {
        return Err(AncillaryMapError::Invalid("RFC 8331 Length does not match ANC_Count"));
    }
    Ok(st2038)
}

/// Fill `buf` with zeros up to the size of a grain.
pub fn pad_grain(buf: &mut Vec<u8>) -> (result: Result<(), AncillaryMapError>)
    ensures
        if old(buf)@.len() > MXL_DATA_FORMAT_GRAIN_SIZE {
            &&& result matches Err(error) && error@ == MapFailure::Invalid(
                "RFC 8331 payload exceeds MXL data grain size"@,
            )
            &&& final(buf)@ == old(buf)@
        } else {
            &&& result is Ok
            &&& final(buf)@ == old(buf)@ + zero_bytes(
                (MXL_DATA_FORMAT_GRAIN_SIZE - old(buf)@.len()) as nat,
            )
        },
{
    if buf.len() > MXL_DATA_FORMAT_GRAIN_SIZE {
        return Err(AncillaryMapError::Invalid("RFC 8331 payload exceeds MXL data grain size"));
    }
    buf.resize(MXL_DATA_FORMAT_GRAIN_SIZE, 0);
    assert(buf@ =~= old(buf)@ + zero_bytes((MXL_DATA_FORMAT_GRAIN_SIZE - old(buf)@.len()) as nat));
    Ok(())
}

/// A builder never holds more packets than a header can count.
pub proof fn builder_count_fits(builder: MxlSmpte291GrainBuilder)
    ensures
        builder@.anc_count <= 255,
{
}

/// The first two bytes, read as one integer.
proof fn lemma_length_field(bytes: Seq<u8>)
    requires
        bytes.len() >= 2,
    ensures
        bits::value_at(bits::bits_of(bytes), 0, 16) == bytes[0] * 256 + bytes[1],
{
    let b = bits::bits_of(bytes);
    let value = (bytes[0] * 256 + bytes[1]) as nat;
    bits::lemma_bits_of_byte(bytes, 0);
    bits::lemma_bits_of_byte(bytes, 1);
    lemma_value_concat(b.subrange(0, 8), b.subrange(8, 16));
    power2::lemma2_to64();
    assert(b.subrange(0, 16) =~= b.subrange(0, 8) + b.subrange(8, 16));
}

/// The value of bits in two parts.
proof fn lemma_value_concat(high: Seq<bool>, low: Seq<bool>)
    ensures
        bits::bits_value(high + low) == bits::bits_value(high) * power2::pow2(low.len())
            + bits::bits_value(low),
    decreases low.len(),
{
    if low.len() == 0 {
        power2::lemma2_to64();
        assert(high + low =~= high);
    } else {
        let front = low.drop_last();
        lemma_value_concat(high, front);
        power2::lemma_pow2_unfold(low.len());
        assert((high + low).drop_last() =~= high + front);
        let h = bits::bits_value(high);
        let p = power2::pow2(front.len());
        assert(h * (2 * p) == 2 * (h * p)) by (nonlinear_arith);
    }
}

/// Zero bits are zero bytes.
proof fn lemma_zero_bytes(count: nat)
    ensures
        bits::bytes_of(bits::fill(false, 8 * count)) == zero_bytes(count),
{
    let zeros = bits::fill(false, 8 * count);
    assert forall|i: int| 0 <= i < count implies bits::bytes_of(zeros)[i] == 0 by {
        power2::lemma2_to64();
        bits::lemma_field_zero(8);
        bits::lemma_field_value(8, 0);
        assert(zeros.subrange(8 * i, 8 * i + 8) =~= bits::field(8, 0));
    }
    assert(bits::bytes_of(zeros) =~= zero_bytes(count));
}

} // verus!
