//! The protocols carried in an IPv4 body, and the body itself.
use vstd::prelude::*;

pub mod icmp;
pub mod tcp;

pub use icmp::{ICMPBody, ICMP};
pub use tcp::{TCPControlBits, TCP};

use crate::ip::{agrees, IPHeader, IPPacketError, IPPacketErrorKind, SpecIPHeader};
use icmp::{parse_icmp, SpecICMP};
use tcp::{parse_tcp, SpecTCP};

verus! {

/// The mathematical content of an IPv4 body.
pub enum SpecIPBody {
    ICMP(SpecICMP),
    TCP(SpecTCP),
}

impl SpecIPBody {
    /// Whether the body can be written back to bytes: an echo or echo reply
    /// message, or a well-formed segment.
    pub open spec fn encodable(self) -> bool {
        match self {
            SpecIPBody::ICMP(m) => m.body.is_echo(),
            SpecIPBody::TCP(t) => t.wf(),
        }
    }

    /// The wire form of the body.
    pub open spec fn bytes(self) -> Seq<u8> {
        match self {
            SpecIPBody::ICMP(m) => m.bytes(),
            SpecIPBody::TCP(t) => t.bytes(),
        }
    }
}

/// Decoding of an IPv4 body, dispatched on the header's protocol number.
pub open spec fn parse_ip_body(header: SpecIPHeader, s: Seq<u8>) -> Result<SpecIPBody, IPPacketErrorKind> {
    if header.protocol == 1 {
        match parse_icmp(s) {
            Ok(m) => Ok(SpecIPBody::ICMP(m)),
            Err(kind) => Err(kind),
        }
    } else if header.protocol == 6 {
        match parse_tcp(s, header.source_addr, header.destination_addr, header.protocol) {
            Ok(t) => Ok(SpecIPBody::TCP(t)),
            Err(kind) => Err(kind),
        }
    } else {
        Err(IPPacketErrorKind::NotImplementedYet)
    }
}

/// The body of an IPv4 packet.
pub enum IPBody {
    ICMP(ICMP),
    TCP(TCP),
}

impl View for IPBody {
    type V = SpecIPBody;

    open spec fn view(&self) -> SpecIPBody {
        match self {
            IPBody::ICMP(m) => SpecIPBody::ICMP(m@),
            IPBody::TCP(t) => SpecIPBody::TCP(t@),
        }
    }
}

impl IPBody {
    /// Decodes `body_buf`, the bytes after the header, as the protocol that
    /// the header names.
    pub fn from_byte_buffer(ip_header: &IPHeader, body_buf: &[u8]) -> (r: Result<Self, IPPacketError>)
        ensures
            agrees(r, parse_ip_body(ip_header@, body_buf@)),
    {
        match ip_header.protocol {
            1 => match ICMP::from_byte_buffer(body_buf) {
                Ok(m) => Ok(Self::ICMP(m)),
                Err(e) => Err(e),
            },
            6 => match TCP::from_byte_buffer(
                body_buf,
                ip_header.source_addr,
                ip_header.destination_addr,
                ip_header.protocol,
            ) {
                Ok(t) => Ok(Self::TCP(t)),
                Err(e) => Err(e),
            },
            _ => Err(IPPacketError::new(IPPacketErrorKind::NotImplementedYet)),
        }
    }

    /// The wire form of the body.
    pub fn to_byte_buffer(&self) -> (r: Vec<u8>)
        requires
            self@.encodable(),
            self@.bytes().len() <= usize::MAX,
        ensures
            r@ == self@.bytes(),
    {
        match self {
            Self::ICMP(icmp) => icmp.to_byte_buffer(),
            Self::TCP(tcp) => tcp.to_byte_buffer(),
        }
    }

    /// Length of the wire form of the body.
    pub fn len(&self) -> (r: usize)
        requires
            self@.encodable(),
            self@.bytes().len() <= usize::MAX,
        ensures
            r == self@.bytes().len(),
    {
        match self {
            Self::ICMP(icmp) => icmp.len(),
            Self::TCP(tcp) => {
                assert(tcp@.bytes().len() == tcp@.len());
                tcp.len()
            },
        }
    }
}

} // verus!
