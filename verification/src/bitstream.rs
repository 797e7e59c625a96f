//! Bit streams over bytes, read and written by `bitstream_io`.
use crate::bits;
use crate::error::IoErrorKind;
use bitstream_io::{BigEndian, BitRead, BitReader, BitWrite, BitWriter};
use std::io::{Cursor, ErrorKind};
use vstd::prelude::*;

verus! {

/// A `bitstream_io::BitReader` over a byte slice, most significant bits first.
///
/// Verus knows nothing of what is inside; [`source_bits`] and [`bits_read`] name it.
#[verifier::external_body]
pub struct BitSource<'a> {
    reader: BitReader<Cursor<&'a [u8]>, BigEndian>,
}

/// A `bitstream_io::BitWriter` that appends to a byte vector, most significant bits first.
///
/// Verus knows nothing of what is inside; [`written_bits`] names it.
#[verifier::external_body]
pub struct BitSink {
    writer: BitWriter<Vec<u8>, BigEndian>,
}

/// All the bits that `source` was made with.
pub uninterp spec fn source_bits(source: BitSource<'_>) -> Seq<bool>;

/// How many of its bits `source` has handed out, as long as no read has failed.
pub uninterp spec fn bits_read(source: BitSource<'_>) -> nat;

/// The bits that `sink` holds: those of the bytes that it was made with, then those written.
pub uninterp spec fn written_bits(sink: BitSink) -> Seq<bool>;

impl<'a> BitSource<'a> {
    /// `BitReader::endian` over `Cursor::new`: nothing is read yet.
    #[verifier::external_body]
    pub(crate) fn new(bytes: &'a [u8]) -> (source: BitSource<'a>)
        ensures
            source_bits(source) == bits::bits_of(bytes@),
            bits_read(source) == 0,
    {
        BitSource { reader: BitReader::endian(Cursor::new(bytes), BigEndian) }
    }

    /// `BitRead::read`: takes the next `BITS` bits as an integer, first bit most significant. It
    /// fails, with `UnexpectedEof`, if and only if fewer bits are left. After a failure part of the
    /// rest may be gone, and nothing is known of [`bits_read`]: such a source is not read again.
    #[verifier::external_body]
    pub(crate) fn read_bits<const BITS: u32>(&mut self) -> (result: Result<u32, IoErrorKind>)
        requires
            1 <= BITS <= 32,
            bits_read(*old(self)) <= source_bits(*old(self)).len(),
        ensures
            source_bits(*final(self)) == source_bits(*old(self)),
            match result {
                Ok(value) => {
                    &&& bits_read(*old(self)) + BITS <= source_bits(*old(self)).len()
                    &&& value == bits::value_at(
                        source_bits(*old(self)),
                        bits_read(*old(self)) as int,
                        BITS as nat,
                    )
                    &&& bits_read(*final(self)) == bits_read(*old(self)) + BITS
                },
                Err(kind) => {
                    &&& bits_read(*old(self)) + BITS > source_bits(*old(self)).len()
                    &&& kind == IoErrorKind::UnexpectedEof
                },
            },
    {
        match self.reader.read::<BITS, u32>() {
            Ok(value) => Ok(value),
            Err(error) => match error.kind() {
                ErrorKind::UnexpectedEof => Err(IoErrorKind::UnexpectedEof),
                ErrorKind::InvalidInput => Err(IoErrorKind::InvalidInput),
                _ => Err(IoErrorKind::Other),
            },
        }
    }

    /// `BitRead::read_bit`: takes the next bit. It fails, with `UnexpectedEof`, if and only if
    /// none is left. After a failure nothing is known of [`bits_read`]: such a source is not read
    /// again.
    #[verifier::external_body]
    pub(crate) fn read_bit(&mut self) -> (result: Result<bool, IoErrorKind>)
        requires
            bits_read(*old(self)) <= source_bits(*old(self)).len(),
        ensures
            source_bits(*final(self)) == source_bits(*old(self)),
            match result {
                Ok(bit) => {
                    &&& bits_read(*old(self)) < source_bits(*old(self)).len()
                    &&& bit == source_bits(*old(self))[bits_read(*old(self)) as int]
                    &&& bits_read(*final(self)) == bits_read(*old(self)) + 1
                },
                Err(kind) => {
                    &&& bits_read(*old(self)) >= source_bits(*old(self)).len()
                    &&& kind == IoErrorKind::UnexpectedEof
                },
            },
    {
        match self.reader.read_bit() {
            Ok(bit) => Ok(bit),
            Err(error) => match error.kind() {
                ErrorKind::UnexpectedEof => Err(IoErrorKind::UnexpectedEof),
                ErrorKind::InvalidInput => Err(IoErrorKind::InvalidInput),
                _ => Err(IoErrorKind::Other),
            },
        }
    }

    /// `BitRead::byte_aligned`: whether a whole number of bytes has been read.
    #[verifier::external_body]
    pub(crate) fn byte_aligned(&self) -> (aligned: bool)
        ensures
            aligned == (bits_read(*self) % 8 == 0),
    {
        self.reader.byte_aligned()
    }

    /// `BitReader::reader` and `Cursor::position`: how many bytes have been read. Between two
    /// bytes only; elsewhere there is no reader to ask.
    #[verifier::external_body]
    pub(crate) fn byte_position(&mut self) -> (position: u64)
        requires
            bits_read(*old(self)) % 8 == 0,
        ensures
            *final(self) == *old(self),
            8 * position == bits_read(*old(self)),
    {
        self.reader.reader().expect("byte_aligned").position()
    }
}

impl BitSink {
    /// `BitWriter::endian` over a vector, which grows at its end.
    #[verifier::external_body]
    pub(crate) fn new(bytes: Vec<u8>) -> (sink: BitSink)
        ensures
            written_bits(sink) == bits::bits_of(bytes@),
    {
        BitSink { writer: BitWriter::endian(bytes, BigEndian) }
    }

    /// `BitWrite::write`: appends `value` in `BITS` bits, most significant bit first. It fails,
    /// with `InvalidInput` and nothing written, if and only if `value` needs more bits.
    #[verifier::external_body]
    pub(crate) fn write_bits<const BITS: u32>(&mut self, value: u32) -> (result: Result<(), IoErrorKind>)
        requires
            1 <= BITS <= 32,
        ensures
            match result {
                Ok(_) => {
                    &&& bits::fits(BITS as nat, value as nat)
                    &&& written_bits(*final(self)) == written_bits(*old(self)) + bits::field(
                        BITS as nat,
                        value as nat,
                    )
                },
                Err(kind) => {
                    &&& !bits::fits(BITS as nat, value as nat)
                    &&& kind == IoErrorKind::InvalidInput
                    &&& written_bits(*final(self)) == written_bits(*old(self))
                },
            },
    {
        match self.writer.write::<BITS, u32>(value) {
            Ok(done) => Ok(done),
            Err(error) => match error.kind() {
                ErrorKind::UnexpectedEof => Err(IoErrorKind::UnexpectedEof),
                ErrorKind::InvalidInput => Err(IoErrorKind::InvalidInput),
                _ => Err(IoErrorKind::Other),
            },
        }
    }

    /// `BitWrite::write_bit`: appends one bit. A vector takes every byte, so it does not fail.
    #[verifier::external_body]
    pub(crate) fn write_bit(&mut self, bit: bool) -> (result: Result<(), IoErrorKind>)
        ensures
            result is Ok,
            written_bits(*final(self)) == written_bits(*old(self)).push(bit),
    {
        match self.writer.write_bit(bit) {
            Ok(done) => Ok(done),
            Err(error) => match error.kind() {
                ErrorKind::UnexpectedEof => Err(IoErrorKind::UnexpectedEof),
                ErrorKind::InvalidInput => Err(IoErrorKind::InvalidInput),
                _ => Err(IoErrorKind::Other),
            },
        }
    }

    /// `BitWrite::byte_aligned`: whether a whole number of bytes has been written.
    #[verifier::external_body]
    pub(crate) fn byte_aligned(&self) -> (aligned: bool)
        ensures
            aligned == (written_bits(*self).len() % 8 == 0),
    {
        self.writer.byte_aligned()
    }

    /// `BitWrite::byte_align`: appends zero bits up to the next byte. A vector takes every byte,
    /// so it does not fail.
    #[verifier::external_body]
    pub(crate) fn byte_align(&mut self) -> (result: Result<(), IoErrorKind>)
        ensures
            result is Ok,
            written_bits(*final(self)) == written_bits(*old(self)) + bits::fill(
                false,
                bits::padding_len(written_bits(*old(self)).len(), 8),
            ),
    {
        match self.writer.byte_align() {
            Ok(done) => Ok(done),
            Err(error) => match error.kind() {
                ErrorKind::UnexpectedEof => Err(IoErrorKind::UnexpectedEof),
                ErrorKind::InvalidInput => Err(IoErrorKind::InvalidInput),
                _ => Err(IoErrorKind::Other),
            },
        }
    }

    /// `BitWriter::writer` and `Vec::len`: how many bytes there are. Between two bytes only;
    /// elsewhere there is no writer to ask.
    #[verifier::external_body]
    pub(crate) fn byte_position(&mut self) -> (position: u64)
        requires
            written_bits(*old(self)).len() % 8 == 0,
        ensures
            *final(self) == *old(self),
            8 * position == written_bits(*old(self)).len(),
    {
        self.writer.writer().expect("byte_aligned").len() as u64
    }

    /// `BitWriter::into_writer`: the bytes; bits that fill no whole byte are dropped.
    #[verifier::external_body]
    pub(crate) fn into_bytes(self) -> (bytes: Vec<u8>)
        ensures
            bytes@ == bits::bytes_of(written_bits(self)),
    {
        self.writer.into_writer()
    }
}

} // verus!
