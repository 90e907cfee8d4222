use nust::ip::IPPacketErrorKind;
use nust::protocol::{ICMPBody, ICMP};

const ECHO_REQUEST: [u8; 64] = [
    0x8, 0x0, 0xc0, 0x66, 0x0, 0xf, 0x0, 0x1, 0xa2, 0xaa, 0xd3, 0x67, 0x0, 0x0, 0x0, 0x0, 0xf7,
    0xa3, 0xb, 0x0, 0x0, 0x0, 0x0, 0x0, 0x10, 0x11, 0x12, 0x13, 0x14, 0x15, 0x16, 0x17, 0x18, 0x19,
    0x1a, 0x1b, 0x1c, 0x1d, 0x1e, 0x1f, 0x20, 0x21, 0x22, 0x23, 0x24, 0x25, 0x26, 0x27, 0x28, 0x29,
    0x2a, 0x2b, 0x2c, 0x2d, 0x2e, 0x2f, 0x30, 0x31, 0x32, 0x33, 0x34, 0x35, 0x36, 0x37,
];

#[test]
fn icmp_from_byte_buffer() {
    let buf: [u8; 64] = [
        0x8, 0x0, 0xc0, 0x66, 0x0, 0xf, 0x0, 0x1, 0xa2, 0xaa, 0xd3, 0x67, 0x0, 0x0, 0x0, 0x0,
        0xf7, 0xa3, 0xb, 0x0, 0x0, 0x0, 0x0, 0x0, 0x10, 0x11, 0x12, 0x13, 0x14, 0x15, 0x16,
        0x17, 0x18, 0x19, 0x1a, 0x1b, 0x1c, 0x1d, 0x1e, 0x1f, 0x20, 0x21, 0x22, 0x23, 0x24,
        0x25, 0x26, 0x27, 0x28, 0x29, 0x2a, 0x2b, 0x2c, 0x2d, 0x2e, 0x2f, 0x30, 0x31, 0x32,
        0x33, 0x34, 0x35, 0x36, 0x37,
    ];
    let _icmp = ICMP::from_byte_buffer(&buf).unwrap();
}

#[test]
fn icmp_new() {
    let icmp_body = ICMPBody::EchoReply {
        identifier: 0xf,
        sequence_number: 0x1,
        data: vec![
            0xa2, 0xaa, 0xd3, 0x67, 0x0, 0x0, 0x0, 0x0, 0xf7, 0xa3, 0xb, 0x0, 0x0, 0x0, 0x0, 0x0,
            0x10, 0x11, 0x12, 0x13, 0x14, 0x15, 0x16, 0x17, 0x18, 0x19, 0x1a, 0x1b, 0x1c, 0x1d,
            0x1e, 0x1f, 0x20, 0x21, 0x22, 0x23, 0x24, 0x25, 0x26, 0x27, 0x28, 0x29, 0x2a, 0x2b,
            0x2c, 0x2d, 0x2e, 0x2f, 0x30, 0x31, 0x32, 0x33, 0x34, 0x35, 0x36, 0x37,
        ],
    };
    let icmp = ICMP::new(0x0, 0x0, icmp_body);
    assert_eq!(icmp.checksum, 0xc866);
}

#[test]
fn from_byte_buffer_echo() {
    let _type = 8u8;
    let buf: [u8; 60] = [
        0x0, 0xf, 0x0, 0x1, 0xa2, 0xaa, 0xd3, 0x67, 0x0, 0x0, 0x0, 0x0, 0xf7, 0xa3, 0xb, 0x0,
        0x0, 0x0, 0x0, 0x0, 0x10, 0x11, 0x12, 0x13, 0x14, 0x15, 0x16, 0x17, 0x18, 0x19, 0x1a,
        0x1b, 0x1c, 0x1d, 0x1e, 0x1f, 0x20, 0x21, 0x22, 0x23, 0x24, 0x25, 0x26, 0x27, 0x28, 0x29,
        0x2a, 0x2b, 0x2c, 0x2d, 0x2e, 0x2f, 0x30, 0x31, 0x32, 0x33, 0x34, 0x35, 0x36, 0x37,
    ];
    let icmp_body = ICMPBody::from_byte_buffer(_type, &buf).unwrap();
    assert_eq!(
        icmp_body,
        ICMPBody::Echo {
            identifier: 0xf,
            sequence_number: 0x1,
            data: [
                0xa2, 0xaa, 0xd3, 0x67, 0x0, 0x0, 0x0, 0x0, 0xf7, 0xa3, 0xb, 0x0, 0x0, 0x0, 0x0,
                0x0, 0x10, 0x11, 0x12, 0x13, 0x14, 0x15, 0x16, 0x17, 0x18, 0x19, 0x1a, 0x1b, 0x1c,
                0x1d, 0x1e, 0x1f, 0x20, 0x21, 0x22, 0x23, 0x24, 0x25, 0x26, 0x27, 0x28, 0x29, 0x2a,
                0x2b, 0x2c, 0x2d, 0x2e, 0x2f, 0x30, 0x31, 0x32, 0x33, 0x34, 0x35, 0x36, 0x37,
            ]
            .to_vec()
        }
    )
}

#[test]
fn echo_request_decodes_and_round_trips() {
    let icmp = ICMP::from_byte_buffer(&ECHO_REQUEST).unwrap();
    assert_eq!(icmp._type, 8);
    assert_eq!(icmp.code, 0);
    assert_eq!(icmp.checksum, 0xc066);
    assert_eq!(
        icmp.body,
        ICMPBody::Echo { identifier: 0xf, sequence_number: 1, data: ECHO_REQUEST[8..].to_vec() }
    );
    assert_eq!(icmp.len(), 64);
    assert_eq!(icmp.body.len(), 60);
    assert_eq!(icmp.to_byte_buffer(), ECHO_REQUEST.to_vec());
    assert_eq!(icmp.body.to_byte_buffer(), ECHO_REQUEST[4..].to_vec());
    let again = ICMP::from_byte_buffer(&icmp.to_byte_buffer()).unwrap();
    assert_eq!(again.body, icmp.body);
    assert_eq!(again.checksum, icmp.checksum);
}

#[test]
fn built_message_verifies_and_decodes() {
    let icmp = ICMP::new(8, 0, ICMPBody::Echo { identifier: 0x1234, sequence_number: 7, data: vec![1, 2, 3] });
    let bytes = icmp.to_byte_buffer();
    assert_eq!(bytes.len(), 11);
    let decoded = ICMP::from_byte_buffer(&bytes).unwrap();
    assert_eq!(decoded._type, 8);
    assert_eq!(decoded.checksum, icmp.checksum);
    assert_eq!(
        decoded.body,
        ICMPBody::Echo { identifier: 0x1234, sequence_number: 7, data: vec![1, 2, 3] }
    );
}

#[test]
fn corrupted_icmp_checksum_is_rejected() {
    let mut buf = ECHO_REQUEST;
    buf[3] = 0x67;
    assert_eq!(ICMP::from_byte_buffer(&buf).unwrap_err().kind, IPPacketErrorKind::ICMPChecksumError);
    let mut buf = ECHO_REQUEST;
    buf[40] ^= 0x01;
    assert_eq!(ICMP::from_byte_buffer(&buf).unwrap_err().kind, IPPacketErrorKind::ICMPChecksumError);
}

#[test]
fn tag_only_types_decode_without_payload() {
    // type 3, code 1, checksum over the whole message, then 4 unused bytes
    let buf: [u8; 8] = [0x3, 0x1, 0xfc, 0xfe, 0x0, 0x0, 0x0, 0x0];
    let icmp = ICMP::from_byte_buffer(&buf).unwrap();
    assert_eq!(icmp.body, ICMPBody::DestinationUnreachable);
    assert_eq!(ICMPBody::from_byte_buffer(15, &[]).unwrap(), ICMPBody::InformationRequest);
    assert_eq!(ICMPBody::from_byte_buffer(16, &[]).unwrap(), ICMPBody::InformationReply);
    assert_eq!(ICMPBody::from_byte_buffer(11, &[]).unwrap(), ICMPBody::TimeExceeded);
}

#[test]
fn unknown_icmp_type_is_not_implemented() {
    assert_eq!(
        ICMPBody::from_byte_buffer(42, &[0, 0, 0, 0]).unwrap_err().kind,
        IPPacketErrorKind::NotImplementedYet
    );
    // type 42 with a checksum that verifies
    let buf: [u8; 4] = [42, 0, 0xd5, 0xff];
    assert_eq!(ICMP::from_byte_buffer(&buf).unwrap_err().kind, IPPacketErrorKind::NotImplementedYet);
}

#[test]
fn short_icmp_is_malformed() {
    assert_eq!(ICMP::from_byte_buffer(&[]).unwrap_err().kind, IPPacketErrorKind::MalformedInput);
    assert_eq!(ICMP::from_byte_buffer(&[0xff, 0xff]).unwrap_err().kind, IPPacketErrorKind::MalformedInput);
    // an echo whose identifier and sequence number are cut short
    let buf: [u8; 6] = [8, 0, 0xf7, 0xfe, 0, 1];
    assert_eq!(ICMP::from_byte_buffer(&buf).unwrap_err().kind, IPPacketErrorKind::MalformedInput);
    assert_eq!(
        ICMPBody::from_byte_buffer(0, &[0, 1, 2]).unwrap_err().kind,
        IPPacketErrorKind::MalformedInput
    );
}

#[test]
fn zero_and_all_ones_checksum_fields_both_verify() {
    // The rest of the message sums to 0xFFFF, so a checksum field of 0xFFFF
    // and one of 0x0000 both make the whole message verify.
    let with_ones: [u8; 8] = [0x8, 0x0, 0xff, 0xff, 0xf7, 0xff, 0x0, 0x0];
    let with_zero: [u8; 8] = [0x8, 0x0, 0x0, 0x0, 0xf7, 0xff, 0x0, 0x0];
    assert_eq!(ICMP::from_byte_buffer(&with_ones).unwrap().checksum, 0xffff);
    assert_eq!(ICMP::from_byte_buffer(&with_zero).unwrap().checksum, 0x0000);
}
