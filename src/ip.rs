//! The IPv4 header codec, the decode errors, and the IPv4 packet.
use vstd::prelude::*;

use crate::checksum::{
    checksum_of, checksum_value, lemma_checksum_field, lemma_checksum_field_changed,
    ones_complement_sum, verify_checksum,
};
use crate::protocol::icmp::{lemma_icmp_reencode, parse_icmp};
use crate::protocol::tcp::lemma_tcp_reencode;
use crate::protocol::{parse_ip_body, IPBody, SpecIPBody};
use crate::wire::{
    be16, be32, copy_range, lemma_be16_u16_at, lemma_be32_u32_at, lemma_u16_at_be16,
    lemma_u32_at_be32, opt_bytes, opt_view, push_bytes, push_u16, push_u32, read_u16, read_u32,
    u16_at, u32_at,
};

verus! {

/// What went wrong while decoding a packet.
#[derive(Debug, Clone, Copy, PartialEq, Eq, Structural)]
pub enum IPPacketErrorKind {
    /// The IPv4 header does not sum to `0xFFFF`.
    IPHeaderChecksumError,
    /// The ICMP message does not sum to `0xFFFF`.
    ICMPChecksumError,
    /// The TCP segment and its pseudo-header do not sum to `0xFFFF`.
    TCPChecksumError,
    /// A protocol number or ICMP type that this stack does not handle.
    NotImplementedYet,
    /// The buffer is too short for, or inconsistent with, its declared lengths.
    MalformedInput,
}

/// A decode failure.
#[derive(Debug, Clone, Copy, PartialEq, Eq, Structural)]
pub struct IPPacketError {
    pub kind: IPPacketErrorKind,
}

impl IPPacketError {
    pub fn new(kind: IPPacketErrorKind) -> (r: Self)
        ensures
            r.kind == kind,
    {
        Self { kind }
    }
}

/// An executable decode result agrees with its specification: the same
/// value on success, the same error kind on failure.
pub open spec fn agrees<T: View>(r: Result<T, IPPacketError>, s: Result<T::V, IPPacketErrorKind>) -> bool {
    match r {
        Ok(v) => s == Ok::<T::V, IPPacketErrorKind>(v@),
        Err(e) => s == Err::<T::V, IPPacketErrorKind>(e.kind),
    }
}

/// The mathematical content of an IPv4 header.
pub struct SpecIPHeader {
    pub version: u8,
    pub ihl: u8,
    pub type_of_service: u8,
    pub total_length: u16,
    pub identification: u16,
    pub flags: u8,
    pub fragment_offset: u16,
    pub time_to_live: u8,
    pub protocol: u8,
    pub checksum: u16,
    pub source_addr: u32,
    pub destination_addr: u32,
    pub options: Option<Seq<u8>>,
}

impl SpecIPHeader {
    /// Sub-byte fields fit their widths; options are present exactly when
    /// IHL exceeds five words, and fill the remaining `(IHL - 5) * 4` bytes.
    pub open spec fn wf(self) -> bool {
        &&& self.version < 16
        &&& 5 <= self.ihl < 16
        &&& self.flags < 8
        &&& self.fragment_offset < 0x2000
        &&& (self.options is Some <==> self.ihl > 5)
        &&& opt_bytes(self.options).len() == (self.ihl - 5) * 4
    }

    /// Header length in bytes.
    pub open spec fn header_len(self) -> nat {
        (self.ihl * 4) as nat
    }

    /// Bytes 0 to 9: everything before the checksum field.
    pub open spec fn bytes_before_checksum(self) -> Seq<u8> {
        seq![(self.version * 16 + self.ihl) as u8, self.type_of_service] + be16(self.total_length)
            + be16(self.identification) + be16((self.flags * 0x2000 + self.fragment_offset) as u16)
            + seq![self.time_to_live, self.protocol]
    }

    /// Bytes from 12 on: addresses, then options verbatim.
    pub open spec fn bytes_after_checksum(self) -> Seq<u8> {
        be32(self.source_addr) + be32(self.destination_addr) + opt_bytes(self.options)
    }

    /// The wire form of the header.
    pub open spec fn bytes(self) -> Seq<u8> {
        self.bytes_before_checksum() + be16(self.checksum) + self.bytes_after_checksum()
    }

    pub open spec fn with_checksum(self, checksum: u16) -> SpecIPHeader {
        SpecIPHeader { checksum, ..self }
    }

    /// The header with its checksum field computed over its own wire form,
    /// taken with the field set to zero.
    pub open spec fn sealed(self) -> SpecIPHeader {
        self.with_checksum(checksum_of(self.with_checksum(0).bytes()))
    }
}

/// Decoding of an IPv4 header from the start of `s`: IHL words are read,
/// options are kept verbatim, and the checksum over those bytes must verify.
#[verifier::opaque]
pub open spec fn parse_ip_header(s: Seq<u8>) -> Result<SpecIPHeader, IPPacketErrorKind> {
    if s.len() == 0 {
        Err(IPPacketErrorKind::MalformedInput)
    } else {
        let ihl = (s[0] % 16) as u8;
        if ihl < 5 || s.len() < ihl * 4 {
            Err(IPPacketErrorKind::MalformedInput)
        } else if ones_complement_sum(s.take(ihl * 4)) != 0xFFFF {
            Err(IPPacketErrorKind::IPHeaderChecksumError)
        } else {
            Ok(
                SpecIPHeader {
                    version: s[0] / 16,
                    ihl,
                    type_of_service: s[1],
                    total_length: u16_at(s, 2),
                    identification: u16_at(s, 4),
                    flags: s[6] / 32,
                    fragment_offset: (s[6] % 32 * 256 + s[7]) as u16,
                    time_to_live: s[8],
                    protocol: s[9],
                    checksum: u16_at(s, 10),
                    source_addr: u32_at(s, 12),
                    destination_addr: u32_at(s, 16),
                    options: if ihl == 5 {
                        None
                    } else {
                        Some(s.subrange(20, ihl * 4))
                    },
                },
            )
        }
    }
}

proof fn lemma_flags_fragment(flags: u8, fragment_offset: u16)
    requires
        flags < 8,
        fragment_offset < 0x2000,
    ensures
        ({
            let w = (flags * 0x2000 + fragment_offset) as u16;
            &&& w / 256 / 32 == flags
            &&& w / 256 % 32 * 256 + w % 256 == fragment_offset
        }),
{
    let w = (flags * 0x2000 + fragment_offset) as u16;
    assert(w == flags * 0x2000 + fragment_offset);
    assert(w / 256 == flags * 32 + fragment_offset / 256) by (nonlinear_arith)
        requires
            w == flags * 0x2000 + fragment_offset,
            0 <= fragment_offset,
    ;
    assert(w % 256 == fragment_offset % 256) by (nonlinear_arith)
        requires
            w == flags * 0x2000 + fragment_offset,
            0 <= fragment_offset,
    ;
}

proof fn lemma_nibbles(hi: u8, lo: u8)
    requires
        hi < 16,
        lo < 16,
    ensures
        ((hi * 16 + lo) as u8) % 16 == lo,
        ((hi * 16 + lo) as u8) / 16 == hi,
{
    assert(((hi * 16 + lo) as u8) == hi * 16 + lo);
    assert((hi * 16 + lo) % 16 == lo && (hi * 16 + lo) / 16 == hi) by (nonlinear_arith)
        requires
            hi < 16,
            lo < 16,
    ;
}

/// The wire form of a well-formed header whose checksum verifies decodes
/// back to the same header.
pub proof fn lemma_ip_header_round_trip(h: SpecIPHeader)
    requires
        h.wf(),
        ones_complement_sum(h.bytes()) == 0xFFFF,
    ensures
        parse_ip_header(h.bytes()) == Ok::<SpecIPHeader, IPPacketErrorKind>(h),
{
    reveal(parse_ip_header);
    let s = h.bytes();
    let before = h.bytes_before_checksum();
    let after = h.bytes_after_checksum();
    assert(before.len() == 10);
    assert(after.len() == 8 + opt_bytes(h.options).len());
    assert(s.len() == h.header_len());
    assert(s.take(h.ihl * 4) =~= s);
    assert(s[0] == before[0]);
    lemma_nibbles(h.version, h.ihl);
    assert(s.subrange(2, 4) =~= be16(h.total_length));
    assert(s.subrange(4, 6) =~= be16(h.identification));
    assert(s.subrange(10, 12) =~= be16(h.checksum));
    assert(s.subrange(12, 16) =~= be32(h.source_addr));
    assert(s.subrange(16, 20) =~= be32(h.destination_addr));
    lemma_be16_u16_at(h.total_length, s, 2);
    lemma_be16_u16_at(h.identification, s, 4);
    lemma_be16_u16_at(h.checksum, s, 10);
    lemma_be32_u32_at(h.source_addr, s, 12);
    lemma_be32_u32_at(h.destination_addr, s, 16);
    lemma_flags_fragment(h.flags, h.fragment_offset);
    let w = (h.flags * 0x2000 + h.fragment_offset) as u16;
    assert(s[6] == before[6] && s[7] == before[7]);
    assert(s[8] == h.time_to_live && s[9] == h.protocol && s[1] == h.type_of_service);
    if h.ihl > 5 {
        assert(s.subrange(20, h.ihl * 4) =~= opt_bytes(h.options));
    }
    let p = parse_ip_header(s)->Ok_0;
    assert(p == h);
}

/// A successful decode is well formed, and encoding it gives back exactly
/// the header bytes it was read from.
pub proof fn lemma_ip_header_reencode(s: Seq<u8>)
    requires
        parse_ip_header(s) is Ok,
    ensures
        parse_ip_header(s)->Ok_0.wf(),
        parse_ip_header(s)->Ok_0.bytes() == s.take(parse_ip_header(s)->Ok_0.header_len() as int),
        parse_ip_header(parse_ip_header(s)->Ok_0.bytes()) == parse_ip_header(s),
{
    reveal(parse_ip_header);
    let h = parse_ip_header(s)->Ok_0;
    lemma_u16_at_be16(s, 2);
    lemma_u16_at_be16(s, 4);
    lemma_u16_at_be16(s, 10);
    lemma_u32_at_be32(s, 12);
    lemma_u32_at_be32(s, 16);
    let w = (h.flags * 0x2000 + h.fragment_offset) as u16;
    assert(w == s[6] * 256 + s[7]) by (nonlinear_arith)
        requires
            h.flags == s[6] / 32,
            h.fragment_offset == s[6] % 32 * 256 + s[7],
            w == h.flags * 0x2000 + h.fragment_offset,
    ;
    assert(s[0] == h.version * 16 + h.ihl);
    assert(h.bytes() =~= s.take(h.header_len() as int));
    lemma_ip_header_round_trip(h);
}

/// A header whose checksum field was changed after it verified no longer
/// decodes: the result is a header checksum error. The one exception is a
/// swap of `0x0000` and `0xFFFF`, which both stand for zero.
pub proof fn lemma_ip_header_corrupted_checksum(h: SpecIPHeader, checksum: u16)
    requires
        h.wf(),
        ones_complement_sum(h.bytes()) == 0xFFFF,
        checksum != h.checksum,
        !(h.checksum == 0 && checksum == 0xFFFF),
        !(h.checksum == 0xFFFF && checksum == 0),
    ensures
        parse_ip_header(h.with_checksum(checksum).bytes()) == Err::<SpecIPHeader, IPPacketErrorKind>(
            IPPacketErrorKind::IPHeaderChecksumError,
        ),
{
    reveal(parse_ip_header);
    let t = h.with_checksum(checksum);
    lemma_checksum_field_changed(h.bytes_before_checksum(), h.bytes_after_checksum(), h.checksum, checksum);
    let s = t.bytes();
    assert(s.len() == t.header_len());
    assert(s.take(t.ihl * 4) =~= s);
    assert(s[0] == t.bytes_before_checksum()[0]);
    lemma_nibbles(t.version, t.ihl);
}

/// A sealed header verifies.
pub proof fn lemma_ip_header_sealed(h: SpecIPHeader)
    ensures
        ones_complement_sum(h.sealed().bytes()) == 0xFFFF,
{
    let z = h.with_checksum(0);
    lemma_checksum_field(z.bytes_before_checksum(), z.bytes_after_checksum());
    assert(h.sealed().bytes_before_checksum() == z.bytes_before_checksum());
    assert(h.sealed().bytes_after_checksum() == z.bytes_after_checksum());
}

/// An IPv4 header. Addresses are held as their 32-bit values.
#[derive(Debug)]
pub struct IPHeader {
    pub version: u8,
    pub ihl: u8,
    pub type_of_service: u8,
    pub total_length: u16,
    pub identification: u16,
    pub flags: u8,
    pub fragment_offset: u16,
    pub time_to_live: u8,
    pub protocol: u8,
    pub checksum: u16,
    pub source_addr: u32,
    pub destination_addr: u32,
    pub options: Option<Vec<u8>>,
}

impl View for IPHeader {
    type V = SpecIPHeader;

    open spec fn view(&self) -> SpecIPHeader {
        SpecIPHeader {
            version: self.version,
            ihl: self.ihl,
            type_of_service: self.type_of_service,
            total_length: self.total_length,
            identification: self.identification,
            flags: self.flags,
            fragment_offset: self.fragment_offset,
            time_to_live: self.time_to_live,
            protocol: self.protocol,
            checksum: self.checksum,
            source_addr: self.source_addr,
            destination_addr: self.destination_addr,
            options: opt_view(self.options),
        }
    }
}

impl IPHeader {
    /// Builds a header from its fields and computes its checksum.
    pub fn new(
        version: u8,
        ihl: u8,
        type_of_service: u8,
        total_length: u16,
        identification: u16,
        flags: u8,
        fragment_offset: u16,
        time_to_live: u8,
        protocol: u8,
        source_addr: u32,
        destination_addr: u32,
        options: Option<Vec<u8>>,
    ) -> (r: Self)
        requires
            (SpecIPHeader {
                version,
                ihl,
                type_of_service,
                total_length,
                identification,
                flags,
                fragment_offset,
                time_to_live,
                protocol,
                checksum: 0,
                source_addr,
                destination_addr,
                options: opt_view(options),
            }).wf(),
        ensures
            r@ == (SpecIPHeader {
                version,
                ihl,
                type_of_service,
                total_length,
                identification,
                flags,
                fragment_offset,
                time_to_live,
                protocol,
                checksum: 0,
                source_addr,
                destination_addr,
                options: opt_view(options),
            }).sealed(),
            r@.wf(),
            ones_complement_sum(r@.bytes()) == 0xFFFF,
    {
        let mut ip_header = Self {
            version,
            ihl,
            type_of_service,
            total_length,
            identification,
            flags,
            fragment_offset,
            time_to_live,
            protocol,
            checksum: 0x0,
            source_addr,
            destination_addr,
            options,
        };
        let buf = ip_header.to_byte_buffer();
        ip_header.checksum = checksum_value(buf.as_slice());
        proof {
            lemma_ip_header_sealed(ip_header@);
            assert(ip_header@ == ip_header@.with_checksum(0).sealed());
        }
        ip_header
    }

    /// Decodes the header at the start of `buf`, reading exactly IHL words.
    pub fn from_byte_buffer(buf: &[u8]) -> (r: Result<Self, IPPacketError>)
        ensures
            agrees(r, parse_ip_header(buf@)),
    {
        proof {
            reveal(parse_ip_header);
        }
        if buf.len() == 0 {
            return Err(IPPacketError::new(IPPacketErrorKind::MalformedInput));
        }
        let ihl = Self::get_ihl(buf[0]);
        if ihl < 5 || buf.len() < (ihl as usize) * 4 {
            return Err(IPPacketError::new(IPPacketErrorKind::MalformedInput));
        }
        let header_len = (ihl as usize) * 4;
        let header = vstd::slice::slice_subrange(buf, 0, header_len);
        assert(header@ == buf@.take(header_len as int));
        if !verify_checksum(header) {
            return Err(IPPacketError::new(IPPacketErrorKind::IPHeaderChecksumError));
        }
        let options = if ihl == 5 {
            None
        } else {
            Some(copy_range(buf, 20, header_len))
        };
        Ok(
            Self {
                version: Self::get_version(buf[0]),
                ihl,
                type_of_service: buf[1],
                total_length: read_u16(buf, 2),
                identification: read_u16(buf, 4),
                flags: Self::get_flag(buf[6]),
                fragment_offset: Self::get_fragment_offset(buf[6], buf[7]),
                time_to_live: buf[8],
                protocol: buf[9],
                checksum: read_u16(buf, 10),
                source_addr: read_u32(buf, 12),
                destination_addr: read_u32(buf, 16),
                options,
            },
        )
    }

    /// The wire form: fixed fields in network byte order, then the options.
    pub fn to_byte_buffer(&self) -> (r: Vec<u8>)
        requires
            self@.wf(),
        ensures
            r@ == self@.bytes(),
    {
        let version = self.version;
        let ihl = self.ihl;
        assert((version << 4) | ihl == version * 16 + ihl) by (bit_vector)
            requires
                version < 16,
                ihl < 16,
        ;
        let mut buf: Vec<u8> = Vec::new();
        buf.push((version << 4) | ihl);
        buf.push(self.type_of_service);
        push_u16(&mut buf, self.total_length);
        push_u16(&mut buf, self.identification);
        push_u16(&mut buf, (self.flags as u16) * 0x2000 + self.fragment_offset);
        buf.push(self.time_to_live);
        buf.push(self.protocol);
        push_u16(&mut buf, self.checksum);
        push_u32(&mut buf, self.source_addr);
        push_u32(&mut buf, self.destination_addr);
        match &self.options {
            Some(options) => push_bytes(&mut buf, options.as_slice()),
            None => {},
        }
        assert(buf@ =~= self@.bytes());
        buf
    }

    /// Header length in bytes.
    pub fn len(&self) -> (r: usize)
        requires
            self.ihl < 16,
        ensures
            r == self.ihl * 4,
    {
        (self.ihl as usize) * 4
    }

    fn get_version(x: u8) -> (r: u8)
        ensures
            r == x / 16,
    {
        assert(x >> 4 == x / 16) by (bit_vector);
        x >> 4
    }

    fn get_ihl(x: u8) -> (r: u8)
        ensures
            r == x % 16,
    {
        assert(x & 0x0f == x % 16) by (bit_vector);
        x & 0x0f
    }

    fn get_flag(x: u8) -> (r: u8)
        ensures
            r == x / 32,
    {
        assert(x >> 5 == x / 32) by (bit_vector);
        x >> 5
    }

    fn get_fragment_offset(hi: u8, lo: u8) -> (r: u16)
        ensures
            r == hi % 32 * 256 + lo,
    {
        assert(hi & 0x1f == hi % 32) by (bit_vector);
        ((hi & 0x1f) as u16) * 256 + lo as u16
    }
}

/// The mathematical content of an IPv4 packet.
pub struct SpecIPPacket {
    pub header: SpecIPHeader,
    pub body: SpecIPBody,
}

impl SpecIPPacket {
    /// The header is well formed, a segment body is well formed, and a body
    /// that can be encoded fits, with the header, in the 16-bit total length.
    pub open spec fn wf(self) -> bool {
        &&& self.header.wf()
        &&& (self.body matches SpecIPBody::TCP(t) ==> t.wf())
        &&& (self.body.encodable() ==> self.header.header_len() + self.body.bytes().len() <= 0xFFFF)
    }

    /// The wire form: header, then body.
    pub open spec fn bytes(self) -> Seq<u8> {
        self.header.bytes() + self.body.bytes()
    }
}

/// Decoding of an IPv4 packet: the header, then the body that spans the
/// bytes after it up to the header's total length.
pub open spec fn parse_ip_packet(s: Seq<u8>) -> Result<SpecIPPacket, IPPacketErrorKind> {
    match parse_ip_header(s) {
        Err(kind) => Err(kind),
        Ok(header) => if header.total_length < header.header_len() || s.len()
            < header.total_length {
            Err(IPPacketErrorKind::MalformedInput)
        } else {
            match parse_ip_body(header, s.subrange(header.header_len() as int, header.total_length as int)) {
                Ok(body) => Ok(SpecIPPacket { header, body }),
                Err(kind) => Err(kind),
            }
        },
    }
}

/// A decoded packet is well formed, and when its body can be encoded, its
/// wire form is exactly the `total_length` bytes it was read from.
pub proof fn lemma_ip_packet_reencode(s: Seq<u8>)
    requires
        parse_ip_packet(s) is Ok,
    ensures
        parse_ip_packet(s)->Ok_0.wf(),
        parse_ip_packet(s)->Ok_0.body.encodable() ==> parse_ip_packet(s)->Ok_0.bytes() == s.take(
            parse_ip_packet(s)->Ok_0.header.total_length as int,
        ),
{
    let p = parse_ip_packet(s)->Ok_0;
    let h = parse_ip_header(s)->Ok_0;
    assert(p.header == h);
    lemma_ip_header_reencode(s);
    let body = s.subrange(h.header_len() as int, h.total_length as int);
    assert(parse_ip_body(h, body) == Ok::<SpecIPBody, IPPacketErrorKind>(p.body));
    lemma_body_reencode(h, body);
    assert(h.wf());
    assert(p.body.encodable() ==> p.body.bytes() == body);
    assert(body.len() == h.total_length - h.header_len());
    assert(p.wf());
    if p.body.encodable() {
        assert(h.bytes() == s.take(h.header_len() as int));
        assert(p.bytes() =~= s.take(h.total_length as int));
    }
}

proof fn lemma_body_reencode(h: SpecIPHeader, body: Seq<u8>)
    requires
        parse_ip_body(h, body) is Ok,
    ensures
        parse_ip_body(h, body)->Ok_0 matches SpecIPBody::TCP(t) ==> t.wf(),
        parse_ip_body(h, body)->Ok_0.encodable() ==> parse_ip_body(h, body)->Ok_0.bytes() == body,
{
    if h.protocol == 1 {
        if parse_icmp(body)->Ok_0.body.is_echo() {
            lemma_icmp_reencode(body);
        }
    } else {
        lemma_tcp_reencode(body, h.source_addr, h.destination_addr, h.protocol);
    }
}

/// An IPv4 packet: a header and the body it carries.
pub struct IPPacket {
    pub header: IPHeader,
    pub body: IPBody,
}

impl View for IPPacket {
    type V = SpecIPPacket;

    open spec fn view(&self) -> SpecIPPacket {
        SpecIPPacket { header: self.header@, body: self.body@ }
    }
}

impl IPPacket {
    /// Decodes a packet from `buf`.
    pub fn new(buf: &[u8]) -> (r: Result<Self, IPPacketError>)
        ensures
            agrees(r, parse_ip_packet(buf@)),
    {
        let header = match IPHeader::from_byte_buffer(buf) {
            Ok(header) => header,
            Err(e) => return Err(e),
        };
        proof {
            lemma_ip_header_reencode(buf@);
        }
        let header_len = header.len();
        let total_length = header.total_length as usize;
        if total_length < header_len || buf.len() < total_length {
            return Err(IPPacketError::new(IPPacketErrorKind::MalformedInput));
        }
        let body_buf = vstd::slice::slice_subrange(buf, header_len, total_length);
        match IPBody::from_byte_buffer(&header, body_buf) {
            Ok(body) => Ok(Self { header, body }),
            Err(e) => Err(e),
        }
    }

    /// The wire form: header, then body.
    pub fn to_byte_buffer(&self) -> (r: Vec<u8>)
        requires
            self@.header.wf(),
            self@.body.encodable(),
            self@.header.header_len() + self@.body.bytes().len() <= usize::MAX,
        ensures
            r@ == self@.bytes(),
    {
        let mut buf = self.header.to_byte_buffer();
        let body = self.body.to_byte_buffer();
        push_bytes(&mut buf, body.as_slice());
        buf
    }
}

} // verus!
