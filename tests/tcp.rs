use nust::ip::IPPacketErrorKind;
use nust::protocol::{TCPControlBits, TCP};

const SYN_SEGMENT: [u8; 40] = [
    0xbd, 0x4a, 0x0, 0x50, 0x84, 0x78, 0x87, 0x58, 0x0, 0x0, 0x0, 0x0, 0xa0, 0x2, 0xfa, 0xf0, 0xce,
    0x13, 0x0, 0x0, 0x2, 0x4, 0x5, 0xb4, 0x4, 0x2, 0x8, 0xa, 0x82, 0x7a, 0xb1, 0xc1, 0x0, 0x0, 0x0,
    0x0, 0x1, 0x3, 0x3, 0x7,
];
const SOURCE: u32 = 0xc0a80001;
const DESTINATION: u32 = 0xc0a80002;

#[test]
fn from_byte_buffer() {
    let buf: [u8; 40] = [
        0xbd, 0x4a, 0x0, 0x50, 0x84, 0x78, 0x87, 0x58, 0x0, 0x0, 0x0, 0x0, 0xa0, 0x2, 0xfa,
        0xf0, 0xce, 0x13, 0x0, 0x0, 0x2, 0x4, 0x5, 0xb4, 0x4, 0x2, 0x8, 0xa, 0x82, 0x7a, 0xb1,
        0xc1, 0x0, 0x0, 0x0, 0x0, 0x1, 0x3, 0x3, 0x7,
    ];
    let source_address: u32 = 0xc0a80001; // 192.168.0.1
    let destination_address: u32 = 0xc0a80002; // 192.168.0.2
    let protocol = 6;
    let tcp =
        TCP::from_byte_buffer(&buf, source_address, destination_address, protocol).unwrap();
    assert!(tcp.options.is_some());
    assert_eq!(tcp.options.clone().unwrap().len(), 5 * 4);
    assert!(tcp.data.is_empty());
    assert_eq!(buf.to_vec(), tcp.to_byte_buffer());
    assert_eq!(buf.len(), tcp.len());
}

#[test]
fn syn_segment_fields() {
    let tcp = TCP::from_byte_buffer(&SYN_SEGMENT, SOURCE, DESTINATION, 6).unwrap();
    assert_eq!(tcp.source_port, 0xbd4a);
    assert_eq!(tcp.destination_port, 80);
    assert_eq!(tcp.sequence_number, 0x84788758);
    assert_eq!(tcp.acknowledgment_number, 0);
    assert_eq!(tcp.data_offset, 10);
    assert_eq!(tcp.reserved, 0);
    assert_eq!(tcp.control_bits, 0b10);
    assert_eq!(tcp.window, 0xfaf0);
    assert_eq!(tcp.checksum, 0xce13);
    assert_eq!(tcp.urgent_pointer, 0);
    assert_eq!(tcp.options, Some(SYN_SEGMENT[20..40].to_vec()));
}

#[test]
fn checksum_depends_on_pseudo_header() {
    assert_eq!(
        TCP::from_byte_buffer(&SYN_SEGMENT, SOURCE, 0xc0a80003, 6).err().unwrap().kind,
        IPPacketErrorKind::TCPChecksumError
    );
    assert_eq!(
        TCP::from_byte_buffer(&SYN_SEGMENT, SOURCE, DESTINATION, 17).err().unwrap().kind,
        IPPacketErrorKind::TCPChecksumError
    );
}

#[test]
fn corrupted_tcp_checksum_is_rejected() {
    let mut buf = SYN_SEGMENT;
    buf[17] = 0x14;
    assert_eq!(
        TCP::from_byte_buffer(&buf, SOURCE, DESTINATION, 6).err().unwrap().kind,
        IPPacketErrorKind::TCPChecksumError
    );
}

#[test]
fn unaligned_options_are_padded_and_round_trip() {
    let tcp = TCP::new(
        SOURCE, DESTINATION, 6, 1000, 80, 1, 0, 0, 0b10, 1024, 0, Some(vec![1, 3, 3]),
        vec![0xde, 0xad],
    );
    assert_eq!(tcp.data_offset, 6);
    assert_eq!(tcp.len(), 26);
    let bytes = tcp.to_byte_buffer();
    assert_eq!(bytes.len(), 26);
    assert_eq!(bytes[12], 0x60);
    assert_eq!(&bytes[20..24], &[1, 3, 3, 0]);
    assert_eq!(&bytes[24..], &[0xde, 0xad]);
    let decoded = TCP::from_byte_buffer(&bytes, SOURCE, DESTINATION, 6).unwrap();
    assert_eq!(decoded.options, Some(vec![1, 3, 3, 0]));
    assert_eq!(decoded.data, vec![0xde, 0xad]);
    assert_eq!(decoded.checksum, tcp.checksum);
    assert_eq!(decoded.to_byte_buffer(), bytes);
}

#[test]
fn built_segment_packs_reserved_and_control_bits() {
    let tcp = TCP::new(
        SOURCE, DESTINATION, 6, 1, 2, 3, 4, 0b101101, 0b010010, 5, 6, None, Vec::new(),
    );
    assert_eq!(tcp.data_offset, 5);
    let bytes = tcp.to_byte_buffer();
    assert_eq!(bytes.len(), 20);
    assert_eq!(bytes[12], (5 << 4) | 0b1011);
    assert_eq!(bytes[13], (0b01 << 6) | 0b010010);
    let decoded = TCP::from_byte_buffer(&bytes, SOURCE, DESTINATION, 6).unwrap();
    assert_eq!(decoded.reserved, 0b101101);
    assert_eq!(decoded.control_bits, 0b010010);
    assert!(decoded.options.is_none());
    assert_eq!(decoded.sequence_number, 3);
    assert_eq!(decoded.acknowledgment_number, 4);
    assert_eq!(decoded.window, 5);
    assert_eq!(decoded.urgent_pointer, 6);
}

#[test]
fn short_or_inconsistent_segment_is_malformed() {
    // 20 zero bytes would fail the checksum; a segment whose words cancel the
    // pseudo-header is needed to reach the length checks.
    let tcp = TCP::new(SOURCE, DESTINATION, 6, 1, 2, 3, 4, 0, 0, 5, 6, None, Vec::new());
    let mut bytes = tcp.to_byte_buffer();
    // declare 6 header words in a 20-byte segment and fix the checksum for it
    bytes[12] = 0x60;
    bytes[16] = 0;
    bytes[17] = 0;
    let mut pseudo = vec![0xc0, 0xa8, 0x0, 0x1, 0xc0, 0xa8, 0x0, 0x2, 0x0, 0x6, 0x0, 20];
    pseudo.extend_from_slice(&bytes);
    let c = nust::checksum::checksum_value(&pseudo);
    bytes[16] = (c >> 8) as u8;
    bytes[17] = (c & 0xff) as u8;
    assert_eq!(
        TCP::from_byte_buffer(&bytes, SOURCE, DESTINATION, 6).err().unwrap().kind,
        IPPacketErrorKind::MalformedInput
    );
}

#[test]
fn control_bits_masks() {
    assert_eq!(TCPControlBits::URG.to_u8(), 0b100000);
    assert_eq!(TCPControlBits::ACK.to_u8(), 0b10000);
    assert_eq!(TCPControlBits::PSH.to_u8(), 0b1000);
    assert_eq!(TCPControlBits::RST.to_u8(), 0b100);
    assert_eq!(TCPControlBits::SYN.to_u8(), 0b10);
    assert_eq!(TCPControlBits::FIN.to_u8(), 0b1);
    assert_eq!(TCPControlBits::from_u8(0b10).unwrap(), TCPControlBits::SYN);
    assert_eq!(TCPControlBits::from_u8(0b100000).unwrap(), TCPControlBits::URG);
    assert_eq!(
        TCPControlBits::from_u8(0b10010).unwrap_err().kind,
        IPPacketErrorKind::MalformedInput
    );
    assert!(TCPControlBits::from_u8(0).is_err());
}
