//! The stateless responder: from one decoded inbound packet, at most one
//! reply packet, and the same on raw link-layer frames.
use vstd::prelude::*;

use crate::ip::{
    lemma_ip_packet_reencode, parse_ip_packet, IPHeader, IPPacket, SpecIPHeader, SpecIPPacket,
};
use crate::protocol::icmp::{SpecICMP, SpecICMPBody};
use crate::protocol::tcp::{data_offset_for, padded, SpecTCP};
use crate::protocol::{ICMPBody, IPBody, SpecIPBody, TCPControlBits, ICMP, TCP};
use crate::wire::{copy_options, copy_range, opt_bytes, push_bytes, read_u16, u16_at};

verus! {

/// The link-layer protocol tag that selects IPv4.
pub const ETHERTYPE_IPV4: u16 = 0x0800;

/// The header of a reply: addresses swapped, total length recomputed for a
/// body of `body_len` bytes, every other field kept, checksum recomputed.
pub open spec fn reply_header_of(h: SpecIPHeader, body_len: nat) -> SpecIPHeader {
    SpecIPHeader {
        total_length: (h.header_len() + body_len) as u16,
        checksum: 0,
        source_addr: h.destination_addr,
        destination_addr: h.source_addr,
        ..h
    }.sealed()
}

/// The echo reply to an echo request: same code, identifier, sequence number
/// and data.
pub open spec fn echo_reply_of(
    code: u8,
    identifier: u16,
    sequence_number: u16,
    data: Seq<u8>,
) -> SpecICMP {
    SpecICMP {
        icmp_type: 0,
        code,
        checksum: 0,
        body: SpecICMPBody::EchoReply { identifier, sequence_number, data },
    }.sealed()
}

/// The SYN-ACK answering a bare SYN that arrived in a packet with header `h`.
pub open spec fn syn_ack_of(h: SpecIPHeader, t: SpecTCP) -> SpecTCP {
    SpecTCP {
        source_port: t.destination_port,
        destination_port: t.source_port,
        sequence_number: 0,
        acknowledgment_number: ((t.sequence_number + 1) % 0x1_0000_0000) as u32,
        data_offset: data_offset_for(opt_bytes(t.options).len()) as u8,
        reserved: 0,
        control_bits: TCPControlBits::SYN.mask() | TCPControlBits::ACK.mask(),
        window: t.window,
        checksum: 0,
        urgent_pointer: 0,
        options: t.options,
        data: Seq::empty(),
    }.sealed(h.destination_addr, h.source_addr, h.protocol)
}

/// The reply owed to an inbound packet: an echo reply to an echo request, a
/// SYN-ACK to a segment whose control bits are exactly SYN, nothing otherwise.
pub open spec fn reply_of(p: SpecIPPacket) -> Option<SpecIPPacket> {
    match p.body {
        SpecIPBody::ICMP(m) => match m.body {
            SpecICMPBody::Echo { identifier, sequence_number, data } => {
                let icmp = echo_reply_of(m.code, identifier, sequence_number, data);
                Some(
                    SpecIPPacket {
                        header: reply_header_of(p.header, icmp.bytes().len()),
                        body: SpecIPBody::ICMP(icmp),
                    },
                )
            },
            _ => None,
        },
        SpecIPBody::TCP(t) => if t.control_bits == TCPControlBits::SYN.mask() {
            let segment = syn_ack_of(p.header, t);
            Some(
                SpecIPPacket {
                    header: reply_header_of(p.header, segment.len()),
                    body: SpecIPBody::TCP(segment),
                },
            )
        } else {
            None
        },
    }
}

/// The content of an optional packet.
pub open spec fn opt_packet_view(r: Option<IPPacket>) -> Option<SpecIPPacket> {
    match r {
        Some(p) => Some(p@),
        None => None,
    }
}

/// The reply frame owed to an inbound frame: a 4-byte link-layer prefix
/// whose last two bytes tag the protocol, IPv4 selected by `0x0800`. A frame
/// that is not IPv4, does not decode, or asks for no reply gets none.
pub open spec fn frame_reply_of(f: Seq<u8>) -> Option<Seq<u8>> {
    if f.len() < 4 || u16_at(f, 2) != ETHERTYPE_IPV4 {
        None
    } else {
        match parse_ip_packet(f.skip(4)) {
            Ok(p) => match reply_of(p) {
                Some(q) => Some(seq![0u8, 0u8, 8u8, 0u8] + q.bytes()),
                None => None,
            },
            Err(_) => None,
        }
    }
}

/// The header of a reply carrying `body_len` bytes.
fn reply_header(header: &IPHeader, body_len: usize) -> (r: IPHeader)
    requires
        header@.wf(),
        header@.header_len() + body_len <= 0xFFFF,
    ensures
        r@ == reply_header_of(header@, body_len as nat),
        r@.wf(),
{
    let total_length = (header.len() + body_len) as u16;
    IPHeader::new(
        header.version,
        header.ihl,
        header.type_of_service,
        total_length,
        header.identification,
        header.flags,
        header.fragment_offset,
        header.time_to_live,
        header.protocol,
        header.destination_addr,
        header.source_addr,
        copy_options(&header.options),
    )
}

/// The echo reply, wrapped in its IPv4 packet, to an echo request.
fn echo_reply(
    header: &IPHeader,
    code: u8,
    identifier: u16,
    sequence_number: u16,
    data: &Vec<u8>,
) -> (r: IPPacket)
    requires
        header@.wf(),
        header@.header_len() + 8 + data@.len() <= 0xFFFF,
    ensures
        r@ == (SpecIPPacket {
            header: reply_header_of(
                header@,
                echo_reply_of(code, identifier, sequence_number, data@).bytes().len(),
            ),
            body: SpecIPBody::ICMP(echo_reply_of(code, identifier, sequence_number, data@)),
        }),
        r@.header.wf(),
        r@.body.encodable(),
        r@.header.header_len() + r@.body.bytes().len() <= 0xFFFF,
{
    let body = ICMPBody::EchoReply {
        identifier,
        sequence_number,
        data: copy_range(data.as_slice(), 0, data.len()),
    };
    assert(data@.subrange(0, data@.len() as int) =~= data@);
    let message = ICMP::new(0, code, body);
    let ip_body = IPBody::ICMP(message);
    let body_len = ip_body.len();
    let ip_header = reply_header(header, body_len);
    IPPacket { header: ip_header, body: ip_body }
}

/// The SYN-ACK, wrapped in its IPv4 packet, to a segment carrying a SYN.
fn syn_ack(header: &IPHeader, tcp: &TCP) -> (r: IPPacket)
    requires
        header@.wf(),
        tcp@.wf(),
    ensures
        r@ == (SpecIPPacket {
            header: reply_header_of(header@, syn_ack_of(header@, tcp@).len()),
            body: SpecIPBody::TCP(syn_ack_of(header@, tcp@)),
        }),
        r@.header.wf(),
        r@.body.encodable(),
        r@.header.header_len() + r@.body.bytes().len() <= 0xFFFF,
{
    let ghost n = opt_bytes(tcp@.options).len();
    assert(n <= 40 && padded(opt_bytes(tcp@.options)).len() <= 44) by {
        assert(5 + (n + 3) / 4 < 16);
    }
    assert(0b10u8 | 0b10000u8 == 0b10010u8) by (bit_vector);
    let acknowledgment_number = if tcp.sequence_number == u32::MAX {
        0
    } else {
        tcp.sequence_number + 1
    };
    let segment = TCP::new(
        header.destination_addr,
        header.source_addr,
        header.protocol,
        tcp.destination_port,
        tcp.source_port,
        0,
        acknowledgment_number,
        0,
        TCPControlBits::SYN.to_u8() | TCPControlBits::ACK.to_u8(),
        tcp.window,
        0,
        copy_options(&tcp.options),
        Vec::new(),
    );
    assert(segment@.bytes().len() == segment@.len());
    let ip_body = IPBody::TCP(segment);
    let body_len = ip_body.len();
    let ip_header = reply_header(header, body_len);
    IPPacket { header: ip_header, body: ip_body }
}

/// Decides the reply to a decoded inbound packet.
pub fn reply(packet: &IPPacket) -> (r: Option<IPPacket>)
    requires
        packet@.wf(),
    ensures
        opt_packet_view(r) == reply_of(packet@),
        r matches Some(q) ==> q@.header.wf() && q@.body.encodable() && q@.header.header_len()
            + q@.body.bytes().len() <= 0xFFFF,
{
    match &packet.body {
        IPBody::ICMP(icmp) => match &icmp.body {
            ICMPBody::Echo { identifier, sequence_number, data } => {
                assert(icmp@.bytes().len() == 8 + data@.len());
                Some(echo_reply(&packet.header, icmp.code, *identifier, *sequence_number, data))
            },
            _ => None,
        },
        IPBody::TCP(tcp) => {
            if tcp.control_bits == TCPControlBits::SYN.to_u8() {
                Some(syn_ack(&packet.header, tcp))
            } else {
                None
            }
        },
    }
}

/// Decides the reply frame to one raw inbound frame.
pub fn handle_frame(frame: &[u8]) -> (r: Option<Vec<u8>>)
    ensures
        match r {
            Some(v) => frame_reply_of(frame@) == Some(v@),
            None => frame_reply_of(frame@) is None,
        },
{
    if frame.len() < 4 || read_u16(frame, 2) != ETHERTYPE_IPV4 {
        return None;
    }
    let ip_buf = vstd::slice::slice_subrange(frame, 4, frame.len());
    assert(ip_buf@ == frame@.skip(4));
    let packet = match IPPacket::new(ip_buf) {
        Ok(packet) => packet,
        Err(_) => return None,
    };
    proof {
        lemma_ip_packet_reencode(ip_buf@);
    }
    match reply(&packet) {
        Some(answer) => {
            let mut out: Vec<u8> = vec![0x0, 0x0, 0x8, 0x0];
            let bytes = answer.to_byte_buffer();
            push_bytes(&mut out, bytes.as_slice());
            assert(out@ =~= seq![0u8, 0u8, 8u8, 0u8] + answer@.bytes());
            Some(out)
        },
        None => None,
    }
}

} // verus!
