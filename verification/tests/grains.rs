use gst_mxl::data::{smpte291_from_st2038_anc_packet, st2038_from_smpte291_anc_packet};
use gst_mxl::error::{AncillaryMapError, IoErrorKind};
use gst_mxl::grain::{
    gst_st2038_from_mxl_smpte291_grain, mxl_smpte291_grain_from_gst_st2038, pad_grain,
    MxlSmpte291GrainBuilder, HEADER_SIZE, MXL_DATA_FORMAT_GRAIN_SIZE,
};

/// Known-good ST 2038 ANC packets. Each is 100 octets and
/// parses cleanly, so single-packet tests use index 0 by convention.
/// The two packets differ in one user-data word and the resulting
/// checksum, so multi-ANC round-trip tests can verify per-packet
/// independence rather than coincidentally returning the same packet
/// twice.
const ST2038_TEST_PACKETS: &[&[u8]] = &[
    &[
        0x00, 0x02, 0x40, 0x02, 0x61, 0x80, 0x64, 0x96, 0x59, 0x69, 0x92, 0x64, 0xf9, 0x0e,
        0x02, 0x8f, 0x57, 0x2b, 0xd1, 0xfc, 0xa0, 0x28, 0x0b, 0xf6, 0x80, 0xa0, 0x1f, 0xa4,
        0x01, 0x00, 0x7e, 0x90, 0x04, 0x01, 0xfa, 0x40, 0x10, 0x07, 0xe9, 0x00, 0x40, 0x1f,
        0xa4, 0x01, 0x00, 0x7e, 0x90, 0x04, 0x01, 0xfa, 0x40, 0x10, 0x07, 0xe9, 0x00, 0x40,
        0x1f, 0xa4, 0x01, 0x00, 0x7e, 0x90, 0x04, 0x01, 0xfa, 0x40, 0x10, 0x07, 0xe9, 0x00,
        0x40, 0x1f, 0xa4, 0x01, 0x00, 0x7e, 0x90, 0x04, 0x01, 0xfa, 0x40, 0x10, 0x07, 0xe9,
        0x00, 0x40, 0x1f, 0xa4, 0x01, 0x00, 0x7e, 0x90, 0x04, 0x01, 0x74, 0x80, 0xa3, 0xd5,
        0x06, 0xab,
    ],
    &[
        0x00, 0x02, 0x40, 0x02, 0x61, 0x80, 0x64, 0x96, 0x59, 0x69, 0x92, 0x64, 0xf9, 0x0e,
        0x02, 0x8f, 0x97, 0x2b, 0xd1, 0xfc, 0xa0, 0x28, 0x0b, 0xf6, 0x80, 0xa0, 0x1f, 0xa4,
        0x01, 0x00, 0x7e, 0x90, 0x04, 0x01, 0xfa, 0x40, 0x10, 0x07, 0xe9, 0x00, 0x40, 0x1f,
        0xa4, 0x01, 0x00, 0x7e, 0x90, 0x04, 0x01, 0xfa, 0x40, 0x10, 0x07, 0xe9, 0x00, 0x40,
        0x1f, 0xa4, 0x01, 0x00, 0x7e, 0x90, 0x04, 0x01, 0xfa, 0x40, 0x10, 0x07, 0xe9, 0x00,
        0x40, 0x1f, 0xa4, 0x01, 0x00, 0x7e, 0x90, 0x04, 0x01, 0xfa, 0x40, 0x10, 0x07, 0xe9,
        0x00, 0x40, 0x1f, 0xa4, 0x01, 0x00, 0x7e, 0x90, 0x04, 0x01, 0x74, 0x80, 0xa3, 0xe4,
        0xfe, 0xab,
    ],
];

#[test]
fn smpte291_from_st2038_anc_packet_round_trip() {
    let expected = ST2038_TEST_PACKETS[0];
    let mut smpte291 = Vec::new();
    let mut remaining_st2038 = expected;
    smpte291_from_st2038_anc_packet(&mut smpte291, &mut remaining_st2038).unwrap();
    assert!(remaining_st2038.is_empty());
    let mut remaining_smpte291 = smpte291.as_slice();
    let mut actual = Vec::new();
    st2038_from_smpte291_anc_packet(&mut actual, &mut remaining_smpte291)
        .expect("st2038_from_smpte291");
    assert!(remaining_smpte291.is_empty());
    assert_eq!(actual, expected);
}

#[test]
fn smpte291_from_st2038_anc_packet_rejects_invalid_leading_zero_bits() {
    let bad = [0xffu8, 0xff, 0xff];
    let mut smpte291 = Vec::new();
    let mut remaining = bad.as_slice();
    match smpte291_from_st2038_anc_packet(&mut smpte291, &mut remaining) {
        Err(AncillaryMapError::Invalid(msg)) => {
            assert_eq!(msg, "ST 2038 leading zero bits must be zero");
        }
        Ok(_) => panic!("expected error"),
        Err(e) => panic!("unexpected error: {e:?}"),
    }
}

#[test]
fn mxl_smpte291_grain_from_gst_st2038_single_anc_round_trip() {
    let expected = ST2038_TEST_PACKETS[0];
    let grain = mxl_smpte291_grain_from_gst_st2038(expected).unwrap();
    let actual = gst_st2038_from_mxl_smpte291_grain(&grain).unwrap();
    assert_eq!(actual, expected);
}

#[test]
fn mxl_smpte291_grain_from_gst_st2038_empty_round_trip() {
    let grain = mxl_smpte291_grain_from_gst_st2038(&[]).unwrap();
    let actual = gst_st2038_from_mxl_smpte291_grain(&grain).unwrap();
    assert!(actual.is_empty());
}

#[test]
fn gst_st2038_from_mxl_smpte291_grain_rejects_length_past_buffer() {
    let mut grain = mxl_smpte291_grain_from_gst_st2038(ST2038_TEST_PACKETS[0]).unwrap();
    grain[0] = 0xff;
    grain[1] = 0xff;
    match gst_st2038_from_mxl_smpte291_grain(&grain) {
        Err(AncillaryMapError::Invalid(msg)) => {
            assert_eq!(msg, "RFC 8331 Length exceeds MXL data grain size");
        }
        Ok(_) => panic!("expected error"),
        Err(e) => panic!("unexpected error: {e:?}"),
    }
}

#[test]
fn gst_st2038_from_mxl_smpte291_grain_rejects_anc_count_zero_with_payload() {
    let mut grain = mxl_smpte291_grain_from_gst_st2038(ST2038_TEST_PACKETS[0]).unwrap();
    grain[2] = 0;
    match gst_st2038_from_mxl_smpte291_grain(&grain) {
        Err(AncillaryMapError::Invalid(msg)) => {
            assert_eq!(msg, "RFC 8331 Length does not match ANC_Count");
        }
        Ok(_) => panic!("expected error"),
        Err(e) => panic!("unexpected error: {e:?}"),
    }
}

#[test]
fn gst_st2038_from_mxl_smpte291_grain_rejects_anc_count_above_rfc_payload() {
    let expected = ST2038_TEST_PACKETS.concat();
    let mut grain = mxl_smpte291_grain_from_gst_st2038(&expected).unwrap();
    grain[2] = 3;
    match gst_st2038_from_mxl_smpte291_grain(&grain) {
        Err(AncillaryMapError::Io(e)) => {
            assert_eq!(e.kind(), IoErrorKind::UnexpectedEof);
        }
        Ok(_) => panic!("expected error"),
        Err(e) => panic!("unexpected error: {e:?}"),
    }
}

#[test]
fn mxl_smpte291_grain_from_gst_st2038_two_anc_round_trip() {
    let expected = ST2038_TEST_PACKETS.concat();
    let grain = mxl_smpte291_grain_from_gst_st2038(&expected).unwrap();
    let actual = gst_st2038_from_mxl_smpte291_grain(&grain).unwrap();
    assert_eq!(actual, expected);
}

#[test]
fn mxl_smpte291_grain_from_gst_st2038_empty_st2038_zero_fills_grain() {
    let actual = mxl_smpte291_grain_from_gst_st2038(&[]).unwrap();
    assert_eq!(actual.len(), MXL_DATA_FORMAT_GRAIN_SIZE);
    assert!(actual.iter().all(|&b| b == 0));
}

#[test]
fn mxl_smpte291_grain_builder_empty_matches_from_gst_st2038() {
    let from_fn = mxl_smpte291_grain_from_gst_st2038(&[]).unwrap();
    let from_builder = MxlSmpte291GrainBuilder::new()
        .unwrap()
        .into_padded_grain()
        .unwrap();
    assert_eq!(from_builder, from_fn);
}

#[test]
fn mxl_smpte291_grain_builder_two_appends_matches_single_buffer() {
    let expected = ST2038_TEST_PACKETS.concat();
    let one_shot = mxl_smpte291_grain_from_gst_st2038(&expected).unwrap();

    let mut b = MxlSmpte291GrainBuilder::new().unwrap();
    b.append_st2038_packets(ST2038_TEST_PACKETS[0]).unwrap();
    b.append_st2038_packets(ST2038_TEST_PACKETS[1]).unwrap();
    let incremental = b.into_padded_grain().unwrap();

    assert_eq!(incremental, one_shot);
    let round_trip = gst_st2038_from_mxl_smpte291_grain(&incremental).unwrap();
    assert_eq!(round_trip, expected);
}

#[test]
fn mxl_smpte291_grain_builder_append_two_anc_in_one_slice_then_empty() {
    let both = ST2038_TEST_PACKETS.concat();
    let one_shot = mxl_smpte291_grain_from_gst_st2038(&both).unwrap();

    let mut b = MxlSmpte291GrainBuilder::new().unwrap();
    b.append_st2038_packets(&both).unwrap();
    b.append_st2038_packets(&[]).unwrap();
    assert_eq!(b.into_padded_grain().unwrap(), one_shot);
}

#[test]
fn mxl_smpte291_grain_builder_rejects_too_many_anc_packets() {
    let mut b = MxlSmpte291GrainBuilder::new().unwrap();
    for _ in 0..255 {
        b.append_st2038_packets(ST2038_TEST_PACKETS[0])
            .expect("255 packets fit");
    }
    match b.append_st2038_packets(ST2038_TEST_PACKETS[0]) {
        Err(AncillaryMapError::Invalid(msg)) => {
            assert_eq!(msg, "more than 255 ST 2038 ANC packets in one grain");
        }
        Ok(_) => panic!("expected error"),
        Err(e) => panic!("unexpected error: {e:?}"),
    }
}

#[test]
fn grain_has_a_header_whole_words_and_zeros() {
    let grain = mxl_smpte291_grain_from_gst_st2038(&ST2038_TEST_PACKETS.concat()).unwrap();
    assert_eq!(grain.len(), MXL_DATA_FORMAT_GRAIN_SIZE);
    let length = u16::from_be_bytes([grain[0], grain[1]]) as usize;
    // 802 bits of content each, in whole words of four bytes.
    assert_eq!(length, 2 * 104);
    assert_eq!(length % 4, 0);
    assert_eq!(grain[2], 2);
    assert_eq!(grain[3..6], [0, 0, 0]);
    assert!(grain[HEADER_SIZE + length..].iter().all(|byte| *byte == 0));
}

#[test]
fn grain_can_be_made_again_from_its_buffer() {
    let mut grain = mxl_smpte291_grain_from_gst_st2038(ST2038_TEST_PACKETS[0]).unwrap();
    // A stream number, `F` and `reserved`, which a buffer has no room for.
    grain[HEADER_SIZE + 3] = 0x85;
    grain[3] = 0xc0;
    grain[5] = 0x01;
    let buffer = gst_st2038_from_mxl_smpte291_grain(&grain).unwrap();
    assert_eq!(buffer, ST2038_TEST_PACKETS[0]);
    let remade = mxl_smpte291_grain_from_gst_st2038(&buffer).unwrap();
    assert_eq!(remade[..3], grain[..3]);
    assert_eq!(remade[3..6], [0, 0, 0]);
    assert_eq!(gst_st2038_from_mxl_smpte291_grain(&remade).unwrap(), buffer);
    // What a buffer has no room for is all that was lost.
    grain[HEADER_SIZE + 3] = 0;
    grain[3] = 0;
    grain[5] = 0;
    assert_eq!(remade, grain);
}

#[test]
fn grain_without_a_whole_header_is_an_end_of_input() {
    for len in 0..HEADER_SIZE {
        match gst_st2038_from_mxl_smpte291_grain(&[0; HEADER_SIZE][..len]) {
            Err(AncillaryMapError::Io(error)) => {
                assert_eq!(error.kind(), IoErrorKind::UnexpectedEof)
            }
            other => panic!("unexpected result: {other:?}"),
        }
    }
    assert!(gst_st2038_from_mxl_smpte291_grain(&[0; HEADER_SIZE]).unwrap().is_empty());
}

#[test]
fn packets_beyond_the_size_of_a_grain_are_refused() {
    let fitting = ST2038_TEST_PACKETS[0].repeat(39);
    assert!(mxl_smpte291_grain_from_gst_st2038(&fitting).is_ok());
    let too_many = ST2038_TEST_PACKETS[0].repeat(40);
    assert_eq!(
        mxl_smpte291_grain_from_gst_st2038(&too_many),
        Err(AncillaryMapError::Invalid("RFC 8331 payload exceeds MXL data grain size"))
    );
}

#[test]
fn packets_beyond_the_length_field_are_refused() {
    // 255 user data words, all zero.
    let mut long = [0u8; 328];
    long[6] = 0x0f;
    long[7] = 0xf0;
    long[327] = 0x0f;
    assert_eq!(
        mxl_smpte291_grain_from_gst_st2038(&long.repeat(200)),
        Err(AncillaryMapError::Invalid("RFC 8331 Length overflow"))
    );
}

#[test]
fn padding_fills_a_grain() {
    let mut buf = vec![1, 2, 3];
    pad_grain(&mut buf).unwrap();
    assert_eq!(buf.len(), MXL_DATA_FORMAT_GRAIN_SIZE);
    assert_eq!(buf[..4], [1, 2, 3, 0]);
    let mut large = vec![1; MXL_DATA_FORMAT_GRAIN_SIZE + 1];
    assert_eq!(
        pad_grain(&mut large),
        Err(AncillaryMapError::Invalid("RFC 8331 payload exceeds MXL data grain size"))
    );
    assert_eq!(large.len(), MXL_DATA_FORMAT_GRAIN_SIZE + 1);
}
