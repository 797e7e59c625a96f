use gst_mxl::data::{
    ancillary_meta_from_smpte291_anc_packet, ancillary_meta_from_st2038_anc_packet,
    smpte291_anc_packet_from_ancillary_meta, smpte291_from_st2038_anc_packet,
    st2038_anc_packet_from_ancillary_meta, st2038_from_smpte291_anc_packet,
};
use gst_mxl::error::{AncillaryMapError, IoErrorKind};
use gst_mxl::packet::AncillaryMeta;

const ST2038: [u8; 12] = [
    0x02, 0x02, 0x80, 0x15, 0x61, 0x40, 0x50, 0x2a, 0xa9, 0x55, 0x80, 0x3f,
];

const RFC8331: [u8; 12] = [
    0x80, 0xa0, 0x05, 0x00, 0x58, 0x50, 0x14, 0x0a, 0xaa, 0x55, 0x60, 0x00,
];

/// A packet without user data in RFC 8331: nine bytes and three bytes of padding.
const RFC8331_EMPTY: [u8; 12] = [0; 12];

fn two_words() -> AncillaryMeta {
    AncillaryMeta {
        c_not_y_channel: true,
        line: 10,
        offset: 5,
        did: 0x161,
        sdid_block_number: 0x101,
        data_count: 0x102,
        data: vec![0x2aa, 0x155],
        checksum: 0x200,
    }
}

fn st2038_error(bytes: &[u8]) -> AncillaryMapError {
    let mut remaining = bytes;
    let error = ancillary_meta_from_st2038_anc_packet(&mut remaining).unwrap_err();
    assert_eq!(remaining, bytes);
    error
}

fn rfc8331_error(bytes: &[u8]) -> AncillaryMapError {
    let mut remaining = bytes;
    let error = ancillary_meta_from_smpte291_anc_packet(&mut remaining).unwrap_err();
    assert_eq!(remaining, bytes);
    error
}

fn is_eof(error: AncillaryMapError) -> bool {
    match error {
        AncillaryMapError::Io(error) => error.kind() == IoErrorKind::UnexpectedEof,
        AncillaryMapError::Invalid(_) => false,
    }
}

#[test]
fn st2038_packet_is_read_field_by_field() {
    let mut bytes = ST2038.to_vec();
    bytes.push(0xaa);
    let mut remaining = bytes.as_slice();
    let meta = ancillary_meta_from_st2038_anc_packet(&mut remaining).unwrap();
    assert_eq!(meta, two_words());
    assert_eq!(remaining, &[0xaa]);
}

#[test]
fn st2038_packet_is_written_behind_what_is_there() {
    let mut bytes = vec![1, 2, 3];
    st2038_anc_packet_from_ancillary_meta(&mut bytes, &two_words()).unwrap();
    assert_eq!(bytes[..3], [1, 2, 3]);
    assert_eq!(bytes[3..], ST2038);
}

#[test]
fn rfc8331_packet_is_read_field_by_field() {
    let mut bytes = RFC8331.to_vec();
    bytes.push(0xaa);
    let mut remaining = bytes.as_slice();
    let meta = ancillary_meta_from_smpte291_anc_packet(&mut remaining).unwrap();
    assert_eq!(meta, two_words());
    assert_eq!(remaining, &[0xaa]);
}

#[test]
fn rfc8331_packet_is_written_behind_what_is_there() {
    let mut bytes = vec![1, 2, 3];
    smpte291_anc_packet_from_ancillary_meta(&mut bytes, &two_words()).unwrap();
    assert_eq!(bytes[..3], [1, 2, 3]);
    assert_eq!(bytes[3..], RFC8331);
}

#[test]
fn packets_are_mapped_both_ways() {
    let mut st2038 = ST2038.as_slice();
    let mut smpte291 = Vec::new();
    smpte291_from_st2038_anc_packet(&mut smpte291, &mut st2038).unwrap();
    assert!(st2038.is_empty());
    assert_eq!(smpte291, RFC8331);
    let mut remaining = smpte291.as_slice();
    let mut back = Vec::new();
    st2038_from_smpte291_anc_packet(&mut back, &mut remaining).unwrap();
    assert!(remaining.is_empty());
    assert_eq!(back, ST2038);
}

#[test]
fn stream_number_is_lost_on_the_way_through_st2038() {
    let mut with_stream = RFC8331;
    with_stream[3] = 0x83;
    let mut remaining = with_stream.as_slice();
    let mut st2038 = Vec::new();
    st2038_from_smpte291_anc_packet(&mut st2038, &mut remaining).unwrap();
    let mut back = Vec::new();
    smpte291_from_st2038_anc_packet(&mut back, &mut st2038.as_slice()).unwrap();
    assert_eq!(back, RFC8331);
}

#[test]
fn packet_without_user_data_is_padded_to_a_word() {
    let meta = AncillaryMeta {
        c_not_y_channel: false,
        line: 0,
        offset: 0,
        did: 0,
        sdid_block_number: 0,
        data_count: 0,
        data: vec![],
        checksum: 0,
    };
    let mut rfc8331 = Vec::new();
    smpte291_anc_packet_from_ancillary_meta(&mut rfc8331, &meta).unwrap();
    assert_eq!(rfc8331, RFC8331_EMPTY);
    let mut st2038 = Vec::new();
    st2038_anc_packet_from_ancillary_meta(&mut st2038, &meta).unwrap();
    assert_eq!(st2038, [0, 0, 0, 0, 0, 0, 0, 0, 3]);
}

#[test]
fn largest_fields_fit() {
    let meta = AncillaryMeta {
        c_not_y_channel: false,
        line: 0x7ff,
        offset: 0xfff,
        did: 0x3ff,
        sdid_block_number: 0x3ff,
        data_count: 0x301,
        data: vec![0x3ff],
        checksum: 0x3ff,
    };
    let mut st2038 = Vec::new();
    st2038_anc_packet_from_ancillary_meta(&mut st2038, &meta).unwrap();
    assert_eq!(
        st2038,
        [0x01, 0xff, 0xff, 0xff, 0xff, 0xff, 0xf0, 0x1f, 0xff, 0xff]
    );
    let mut rfc8331 = Vec::new();
    smpte291_anc_packet_from_ancillary_meta(&mut rfc8331, &meta).unwrap();
    assert_eq!(
        rfc8331,
        [0x7f, 0xff, 0xff, 0x00, 0xff, 0xff, 0xfc, 0x07, 0xff, 0xff, 0xc0, 0x00]
    );
}

#[test]
fn truncated_st2038_packet_names_the_missing_field() {
    let labels = [
        "read zero bits",
        "read line number",
        "read line number",
        "read horizontal offset",
        "read DID",
        "read SDID",
        "read SDID",
        "read data count",
        "read user data word",
        "read user data word",
        "read checksum",
        "read checksum",
    ];
    for (len, label) in labels.iter().enumerate() {
        assert_eq!(
            st2038_error(&ST2038[..len]),
            AncillaryMapError::Invalid(label)
        );
    }
}

#[test]
fn st2038_padding_must_be_ones() {
    let mut bytes = ST2038;
    bytes[11] = 0x3e;
    assert_eq!(
        st2038_error(&bytes),
        AncillaryMapError::Invalid("ST 2038 padding bits must be ones")
    );
}

#[test]
fn truncated_rfc8331_packet_is_an_end_of_input() {
    for len in 0..12 {
        assert!(is_eof(rfc8331_error(&RFC8331[..len])));
        assert!(is_eof(rfc8331_error(&RFC8331_EMPTY[..len])));
    }
}

#[test]
fn rfc8331_padding_must_be_zero() {
    let mut bytes = RFC8331;
    bytes[11] = 0x01;
    assert_eq!(
        rfc8331_error(&bytes),
        AncillaryMapError::Invalid("RFC 8331 padding bits must be zero")
    );
    let mut bytes = RFC8331_EMPTY;
    bytes[9] = 0x01;
    assert_eq!(
        rfc8331_error(&bytes),
        AncillaryMapError::Invalid("RFC 8331 padding bytes must be zero")
    );
}

#[test]
fn wide_field_is_named_when_written_as_rfc8331() {
    let cases: [(AncillaryMeta, &str, usize); 7] = [
        (AncillaryMeta { line: 0x800, ..two_words() }, "write line", 0),
        (AncillaryMeta { offset: 0x1000, ..two_words() }, "write horizontal offset", 1),
        (AncillaryMeta { did: 0x400, ..two_words() }, "write DID", 4),
        (AncillaryMeta { sdid_block_number: 0x400, ..two_words() }, "write SDID", 5),
        (AncillaryMeta { data_count: 0x400, ..two_words() }, "write data_count", 6),
        (AncillaryMeta { data: vec![0x2aa, 0x400], ..two_words() }, "write user data word", 9),
        (AncillaryMeta { checksum: 0x400, ..two_words() }, "write checksum", 10),
    ];
    for (meta, label, whole) in cases {
        let mut bytes = vec![0xee];
        let error = smpte291_anc_packet_from_ancillary_meta(&mut bytes, &meta).unwrap_err();
        assert_eq!(error, AncillaryMapError::Invalid(label));
        assert_eq!(bytes[0], 0xee);
        assert_eq!(bytes[1..], RFC8331[..whole]);
    }
}

#[test]
fn wide_field_is_invalid_input_when_written_as_st2038() {
    let cases: [(AncillaryMeta, usize); 4] = [
        (AncillaryMeta { line: 0x800, ..two_words() }, 0),
        (AncillaryMeta { offset: 0x1000, ..two_words() }, 2),
        (AncillaryMeta { did: 0x400, ..two_words() }, 3),
        (AncillaryMeta { checksum: 0x400, ..two_words() }, 10),
    ];
    for (meta, whole) in cases {
        let mut bytes = vec![0xee];
        match st2038_anc_packet_from_ancillary_meta(&mut bytes, &meta) {
            Err(AncillaryMapError::Io(error)) => {
                assert_eq!(error.kind(), IoErrorKind::InvalidInput)
            }
            other => panic!("unexpected result: {other:?}"),
        }
        assert_eq!(bytes[0], 0xee);
        assert_eq!(bytes[1..], ST2038[..whole]);
    }
}
