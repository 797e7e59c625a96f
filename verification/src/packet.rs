//! Ancillary data (ANC) packets and their two encodings.
//!
//! SMPTE ST 2038 and RFC 8331 lay out the same fields. ST 2038 starts with six zero bits and
//! fills the last byte with ones. RFC 8331 has an `S` bit and a seven bit `StreamNum` after the
//! horizontal offset and fills the last four bytes with zeros.
use crate::bits;
use crate::error::{IoErrorKind, MapFailure};
use vstd::arithmetic::power2;
use vstd::prelude::*;

verus! {

/// One ancillary data packet.
#[derive(Debug, Clone, PartialEq, Eq)]
pub struct AncillaryMeta {
    pub c_not_y_channel: bool,
    pub line: u16,
    pub offset: u16,
    pub did: u16,
    pub sdid_block_number: u16,
    /// Full 10-bit `data_count`; low 8 bits are `data.len()` for a well-formed packet.
    pub data_count: u16,
    pub data: Vec<u16>,
    pub checksum: u16,
}

/// What an [`AncillaryMeta`] holds.
#[verifier::ext_equal]
pub struct Packet {
    pub c_not_y_channel: bool,
    pub line: u16,
    pub offset: u16,
    pub did: u16,
    pub sdid_block_number: u16,
    pub data_count: u16,
    pub data: Seq<u16>,
    pub checksum: u16,
}

impl View for AncillaryMeta {
    type V = Packet;

    open spec fn view(&self) -> Packet {
        Packet {
            c_not_y_channel: self.c_not_y_channel,
            line: self.line,
            offset: self.offset,
            did: self.did,
            sdid_block_number: self.sdid_block_number,
            data_count: self.data_count,
            data: self.data@,
            checksum: self.checksum,
        }
    }
}

impl Packet {
    /// Every field fits the bits that the encodings have for it.
    pub open spec fn fits(self) -> bool {
        &&& self.line < 0x800
        &&& self.offset < 0x1000
        &&& self.did < 0x400
        &&& self.sdid_block_number < 0x400
        &&& self.data_count < 0x400
        &&& forall|i: int| 0 <= i < self.data.len() ==> #[trigger] self.data[i] < 0x400
        &&& self.checksum < 0x400
    }

    /// The packet can be told apart in an encoding: its fields fit, and `data_count` says how
    /// many user data words there are.
    pub open spec fn well_formed(self) -> bool {
        &&& self.fits()
        &&& self.data.len() == self.data_count % 256
    }

    /// DID, SDID, data count, user data words and checksum, ten bits each.
    pub open spec fn words(self) -> Seq<u16> {
        seq![self.did, self.sdid_block_number, self.data_count] + self.data + seq![self.checksum]
    }

    /// Line number and horizontal offset.
    pub open spec fn location_bits(self) -> Seq<bool> {
        seq![self.c_not_y_channel] + bits::field(11, self.line as nat) + bits::field(
            12,
            self.offset as nat,
        )
    }

    /// An ST 2038 packet before its padding.
    pub open spec fn st2038_content(self) -> Seq<bool> {
        bits::fill(false, 6) + self.location_bits() + word_bits(self.words())
    }

    /// An RFC 8331 packet before its padding, with `S` and `StreamNum` zero.
    pub open spec fn rfc8331_content(self) -> Seq<bool> {
        self.location_bits() + bits::fill(false, 8) + word_bits(self.words())
    }

    pub open spec fn st2038_bits(self) -> Seq<bool> {
        let content = self.st2038_content();
        content + bits::fill(true, bits::padding_len(content.len(), 8))
    }

    pub open spec fn rfc8331_bits(self) -> Seq<bool> {
        let content = self.rfc8331_content();
        content + bits::fill(false, bits::padding_len(content.len(), 32))
    }

    /// The packet as ST 2038.
    #[verifier::opaque]
    pub open spec fn st2038(self) -> Seq<u8> {
        bits::bytes_of(self.st2038_bits())
    }

    /// The packet as RFC 8331.
    #[verifier::opaque]
    pub open spec fn rfc8331(self) -> Seq<u8> {
        bits::bytes_of(self.rfc8331_bits())
    }
}

/// `words` in ten bits each.
pub open spec fn word_bits(words: Seq<u16>) -> Seq<bool> {
    Seq::new(10 * words.len(), |i: int| bits::field(10, words[i / 10] as nat)[i % 10])
}

/// Where the first of `words` stands that does not fit ten bits; `words.len()` if all fit.
pub open spec fn first_wide(words: Seq<u16>) -> nat
    decreases words.len(),
{
    if words.len() == 0 {
        0
    } else {
        let before = first_wide(words.drop_last());
        if before < words.len() - 1 || words.last() >= 0x400 {
            before
        } else {
            words.len()
        }
    }
}

/// The field of a packet that stands at `index` in [`Packet::words`].
pub open spec fn word_label(packet: Packet, index: nat) -> Seq<char> {
    if index == 0 {
        "write DID"@
    } else if index == 1 {
        "write SDID"@
    } else if index == 2 {
        "write data_count"@
    } else if index < 3 + packet.data.len() {
        "write user data word"@
    } else {
        "write checksum"@
    }
}

/// Why `packet` cannot be written as RFC 8331, and after how many bits that shows: the first
/// field that is too large for its place.
pub open spec fn rfc8331_failure(packet: Packet) -> Option<(nat, MapFailure)> {
    let wide = first_wide(packet.words());
    if packet.line >= 0x800 {
        Some((1, MapFailure::Invalid("write line"@)))
    } else if packet.offset >= 0x1000 {
        Some((12, MapFailure::Invalid("write horizontal offset"@)))
    } else if wide < packet.words().len() {
        Some((32 + 10 * wide, MapFailure::Invalid(word_label(packet, wide))))
    } else {
        None
    }
}

/// Why `packet` cannot be written as ST 2038, and after how many bits that shows: the first
/// field that is too large for its place.
pub open spec fn st2038_failure(packet: Packet) -> Option<(nat, MapFailure)> {
    let wide = first_wide(packet.words());
    if packet.line >= 0x800 {
        Some((7, MapFailure::Io(IoErrorKind::InvalidInput)))
    } else if packet.offset >= 0x1000 {
        Some((18, MapFailure::Io(IoErrorKind::InvalidInput)))
    } else if wide < packet.words().len() {
        Some((30 + 10 * wide, MapFailure::Io(IoErrorKind::InvalidInput)))
    } else {
        None
    }
}

/// The ten bit word number `index` of those that start at bit `from`.
pub open spec fn word_at(bits: Seq<bool>, from: int, index: int) -> u16 {
    bits::value_at(bits, from + 10 * index, 10) as u16
}

/// How many user data words the packet has whose words start at bit `from`.
pub open spec fn data_len_at(bits: Seq<bool>, from: int) -> nat {
    (word_at(bits, from, 2) % 256) as nat
}

/// Where the padding of the packet starts whose words start at bit `from`.
pub open spec fn content_end(bits: Seq<bool>, from: int) -> nat {
    (from + 40 + 10 * data_len_at(bits, from)) as nat
}

/// The packet whose C flag is bit `head` and whose words start at bit `from`.
pub open spec fn packet_at(bits: Seq<bool>, head: int, from: int) -> Packet {
    Packet {
        c_not_y_channel: bits[head],
        line: bits::value_at(bits, head + 1, 11) as u16,
        offset: bits::value_at(bits, head + 12, 12) as u16,
        did: word_at(bits, from, 0),
        sdid_block_number: word_at(bits, from, 1),
        data_count: word_at(bits, from, 2),
        data: Seq::new(data_len_at(bits, from), |i: int| word_at(bits, from, 3 + i)),
        checksum: word_at(bits, from, 3 + data_len_at(bits, from) as int),
    }
}

/// What reading one ST 2038 packet from the front of `st2038` gives: the packet and how many
/// bytes it takes, or why there is none.
#[verifier::opaque]
pub open spec fn read_st2038(st2038: Seq<u8>) -> Result<(Packet, nat), MapFailure> {
    let b = bits::bits_of(st2038);
    let end = content_end(b, 30);
    let padding = bits::padding_len(end, 8);
    if b.len() < 6 {
        Err(MapFailure::Invalid("read zero bits"@))
    } else if bits::value_at(b, 0, 6) != 0 {
        Err(MapFailure::Invalid("ST 2038 leading zero bits must be zero"@))
    } else if b.len() < 18 {
        Err(MapFailure::Invalid("read line number"@))
    } else if b.len() < 30 {
        Err(MapFailure::Invalid("read horizontal offset"@))
    } else if b.len() < 40 {
        Err(MapFailure::Invalid("read DID"@))
    } else if b.len() < 50 {
        Err(MapFailure::Invalid("read SDID"@))
    } else if b.len() < 60 {
        Err(MapFailure::Invalid("read data count"@))
    } else if b.len() < end - 10 {
        Err(MapFailure::Invalid("read user data word"@))
    } else if b.len() < end {
        Err(MapFailure::Invalid("read checksum"@))
    } else if b.subrange(end as int, (end + padding) as int) != bits::fill(true, padding) {
        Err(MapFailure::Invalid("ST 2038 padding bits must be ones"@))
    } else {
        Ok((packet_at(b, 6, 30), (end + padding) / 8))
    }
}

/// What reading zero bytes gives, from byte `at` up to the next multiple of four: where that
/// is, or why it is not reached.
pub open spec fn read_word_padding(bytes: Seq<u8>, at: nat) -> Result<nat, MapFailure>
    decreases bits::padding_len(at, 4),
{
    if at % 4 == 0 {
        Ok(at)
    } else if at >= bytes.len() {
        Err(MapFailure::Io(IoErrorKind::UnexpectedEof))
    } else if bytes[at as int] != 0 {
        Err(MapFailure::Invalid("RFC 8331 padding bytes must be zero"@))
    } else {
        read_word_padding(bytes, at + 1)
    }
}

/// What reading one RFC 8331 packet from the front of `smpte291` gives: the packet and how many
/// bytes it takes, or why there is none. `S` and `StreamNum` are not looked at.
#[verifier::opaque]
pub open spec fn read_rfc8331(smpte291: Seq<u8>) -> Result<(Packet, nat), MapFailure> {
    let b = bits::bits_of(smpte291);
    let end = content_end(b, 32);
    let padding = bits::padding_len(end, 8);
    if b.len() < 62 || b.len() < end {
        Err(MapFailure::Io(IoErrorKind::UnexpectedEof))
    } else if b.subrange(end as int, (end + padding) as int) != bits::fill(false, padding) {
        Err(MapFailure::Invalid("RFC 8331 padding bits must be zero"@))
    } else {
        match read_word_padding(smpte291, (end + padding) / 8) {
            Ok(len) => Ok((packet_at(b, 0, 32), len)),
            Err(failure) => Err(failure),
        }
    }
}

/// [`first_wide`] is what its name says.
pub proof fn lemma_first_wide(words: Seq<u16>)
    ensures
        first_wide(words) <= words.len(),
        forall|i: int| 0 <= i < first_wide(words) ==> #[trigger] words[i] < 0x400,
        first_wide(words) < words.len() ==> words[first_wide(words) as int] >= 0x400,
    decreases words.len(),
{
    if words.len() > 0 {
        let front = words.drop_last();
        lemma_first_wide(front);
        assert forall|i: int| 0 <= i < first_wide(words) implies #[trigger] words[i] < 0x400 by {
            if i < front.len() {
                assert(front[i] == words[i]);
            }
        }
        if first_wide(front) < front.len() {
            assert(front[first_wide(front) as int] == words[first_wide(front) as int]);
        }
    }
}

/// The bits of the first `count` words, and of one more.
pub proof fn lemma_word_bits(words: Seq<u16>, count: nat)
    requires
        count <= words.len(),
    ensures
        word_bits(words).len() == 10 * words.len(),
        word_bits(words).take(10 * count as int) == word_bits(words.take(count as int)),
        count < words.len() ==> word_bits(words).take(10 * (count + 1) as int) == word_bits(words).take(
            10 * count as int,
        ) + bits::field(10, words[count as int] as nat),
{
    let front = words.take(count as int);
    assert(word_bits(words).take(10 * count as int) =~= word_bits(front));
    if count < words.len() {
        let word = bits::field(10, words[count as int] as nat);
        bits::lemma_field_len(10, words[count as int] as nat);
        let longer = word_bits(words).take(10 * (count + 1) as int);
        assert forall|i: int| 0 <= i < longer.len() implies longer[i] == (word_bits(words).take(
            10 * count as int,
        ) + word)[i] by {
            if i >= 10 * count {
                assert(i / 10 == count && i % 10 == i - 10 * count);
            }
        }
        assert(longer =~= word_bits(words).take(10 * count as int) + word);
    }
}

/// A word that stands in a bit stream is its bits, and fits ten bits.
pub proof fn lemma_word_at(b: Seq<bool>, from: int, index: int)
    requires
        0 <= from + 10 * index,
        from + 10 * index + 10 <= b.len(),
    ensures
        word_at(b, from, index) == bits::value_at(b, from + 10 * index, 10),
        word_at(b, from, index) < 0x400,
        bits::field(10, word_at(b, from, index) as nat) == b.subrange(
            from + 10 * index,
            from + 10 * index + 10,
        ),
{
    power2::lemma2_to64();
    bits::lemma_value_field(b.subrange(from + 10 * index, from + 10 * index + 10));
}

/// What is read is well-formed.
pub proof fn lemma_packet_at(b: Seq<bool>, head: int, from: int)
    requires
        0 <= head,
        head + 24 <= from,
        content_end(b, from) <= b.len(),
    ensures
        packet_at(b, head, from).well_formed(),
        packet_at(b, head, from).line == bits::value_at(b, head + 1, 11),
        packet_at(b, head, from).offset == bits::value_at(b, head + 12, 12),
{
    let packet = packet_at(b, head, from);
    power2::lemma2_to64();
    bits::lemma_value_field(b.subrange(head + 1, head + 12));
    bits::lemma_value_field(b.subrange(head + 12, head + 24));
    lemma_word_at(b, from, 0);
    lemma_word_at(b, from, 1);
    lemma_word_at(b, from, 2);
    lemma_word_at(b, from, 3 + data_len_at(b, from) as int);
    assert forall|i: int| 0 <= i < packet.data.len() implies #[trigger] packet.data[i] < 0x400 by {
        lemma_word_at(b, from, 3 + i);
    }
}

/// A well-formed packet can be written.
pub proof fn lemma_fits_no_failure(packet: Packet)
    ensures
        packet.fits() <==> rfc8331_failure(packet) is None,
        packet.fits() <==> st2038_failure(packet) is None,
{
    let words = packet.words();
    lemma_first_wide(words);
    let n = packet.data.len() as int;
    assert(words.len() == 4 + n);
    assert(words[0] == packet.did && words[1] == packet.sdid_block_number && words[2]
        == packet.data_count && words[3 + n] == packet.checksum);
    assert forall|i: int| 0 <= i < n implies words[3 + i] == #[trigger] packet.data[i] by {}
    if first_wide(words) == words.len() {
        assert forall|i: int| 0 <= i < n implies #[trigger] packet.data[i] < 0x400 by {
            assert(words[3 + i] < 0x400);
        }
    } else {
        let k = first_wide(words) as int;
        if 3 <= k < 3 + n {
            assert(packet.data[k - 3] == words[k]);
        }
    }
}

/// What is read from the front of some bytes takes some of them, and is well-formed.
pub proof fn lemma_read_st2038(st2038: Seq<u8>)
    ensures
        read_st2038(st2038) matches Ok((packet, len)) ==> packet.well_formed() && 9 <= len
            <= st2038.len(),
{
    reveal(read_st2038);
    let b = bits::bits_of(st2038);
    if read_st2038(st2038) is Ok {
        lemma_packet_at(b, 6, 30);
    }
}

/// Where the padding of a word ends.
pub proof fn lemma_read_word_padding(bytes: Seq<u8>, at: nat)
    requires
        at <= bytes.len(),
    ensures
        read_word_padding(bytes, at) matches Ok(len) ==> {
            &&& len == at + bits::padding_len(at, 4)
            &&& len <= bytes.len()
            &&& forall|i: int| at <= i < len ==> #[trigger] bytes[i] == 0
        },
        (at + bits::padding_len(at, 4) <= bytes.len() && forall|i: int|
            at <= i < at + bits::padding_len(at, 4) ==> #[trigger] bytes[i] == 0)
            ==> read_word_padding(bytes, at) is Ok,
    decreases bits::padding_len(at, 4),
{
    if at % 4 != 0 && at < bytes.len() && bytes[at as int] == 0 {
        lemma_read_word_padding(bytes, at + 1);
    }
}

/// What is read from the front of some bytes takes some of them, and is well-formed.
pub proof fn lemma_read_rfc8331(smpte291: Seq<u8>)
    ensures
        read_rfc8331(smpte291) matches Ok((packet, len)) ==> packet.well_formed() && 9 <= len
            <= smpte291.len() && len % 4 == 0,
{
    reveal(read_rfc8331);
    let b = bits::bits_of(smpte291);
    if read_rfc8331(smpte291) is Ok {
        lemma_packet_at(b, 0, 32);
        let end = content_end(b, 32);
        lemma_read_word_padding(smpte291, (end + bits::padding_len(end, 8)) / 8);
    }
}

} // verus!
