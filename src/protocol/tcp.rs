//! The TCP segment codec, with the pseudo-header checksum.
use vstd::prelude::*;

use crate::checksum::{
    checksum_of, checksum_value, lemma_checksum_field, lemma_checksum_field_changed,
    ones_complement_sum, verify_checksum,
};
use crate::ip::{agrees, IPPacketError, IPPacketErrorKind};
use crate::wire::{
    be16, be32, copy_range, lemma_be16_u16_at, lemma_be32_u32_at, lemma_u16_at_be16,
    lemma_u32_at_be32, opt_bytes, opt_view, push_bytes, push_u16, push_u32, read_u16, read_u32,
    u16_at, u32_at,
};

verus! {

/// Zero bytes that pad `n` option bytes to a 4-byte boundary.
pub open spec fn padding_len(n: nat) -> nat {
    if n % 4 == 0 {
        0
    } else {
        (4 - n % 4) as nat
    }
}

/// Option bytes followed by their zero padding.
pub open spec fn padded(o: Seq<u8>) -> Seq<u8> {
    o + Seq::new(padding_len(o.len()), |i: int| 0u8)
}

/// The data offset, in 32-bit words, of a header carrying `n` option bytes.
pub open spec fn data_offset_for(n: nat) -> nat {
    5 + (n + 3) / 4
}

/// The 12-byte pseudo-header that the TCP checksum covers ahead of the segment.
pub open spec fn pseudo_header(source: u32, destination: u32, protocol: u8, length: u16) -> Seq<u8> {
    be32(source) + be32(destination) + seq![0u8, protocol] + be16(length)
}

/// The mathematical content of a TCP segment.
pub struct SpecTCP {
    pub source_port: u16,
    pub destination_port: u16,
    pub sequence_number: u32,
    pub acknowledgment_number: u32,
    pub data_offset: u8,
    pub reserved: u8,
    pub control_bits: u8,
    pub window: u16,
    pub checksum: u16,
    pub urgent_pointer: u16,
    pub options: Option<Seq<u8>>,
    pub data: Seq<u8>,
}

impl SpecTCP {
    /// The data offset counts the header words, padded options included, and
    /// fits its 4 bits; reserved and control bits fit their 6 bits.
    pub open spec fn wf(self) -> bool {
        &&& self.data_offset == data_offset_for(opt_bytes(self.options).len())
        &&& self.data_offset < 16
        &&& self.reserved < 64
        &&& self.control_bits < 64
    }

    /// Options as a decoder produces them: absent, or a non-empty whole
    /// number of 32-bit words.
    pub open spec fn options_aligned(self) -> bool {
        match self.options {
            Some(o) => o.len() > 0 && o.len() % 4 == 0,
            None => true,
        }
    }

    /// Bytes 0 to 15: everything before the checksum field.
    pub open spec fn bytes_before_checksum(self) -> Seq<u8> {
        be16(self.source_port) + be16(self.destination_port) + be32(self.sequence_number) + be32(
            self.acknowledgment_number,
        ) + seq![
            (self.data_offset * 16 + self.reserved / 4) as u8,
            (self.reserved % 4 * 64 + self.control_bits) as u8,
        ] + be16(self.window)
    }

    /// Bytes from 18 on: urgent pointer, padded options, data.
    pub open spec fn bytes_after_checksum(self) -> Seq<u8> {
        be16(self.urgent_pointer) + padded(opt_bytes(self.options)) + self.data
    }

    /// The wire form of the segment.
    pub open spec fn bytes(self) -> Seq<u8> {
        self.bytes_before_checksum() + be16(self.checksum) + self.bytes_after_checksum()
    }

    /// Segment length in bytes.
    pub open spec fn len(self) -> nat {
        20 + padded(opt_bytes(self.options)).len() + self.data.len()
    }

    pub open spec fn with_checksum(self, checksum: u16) -> SpecTCP {
        SpecTCP { checksum, ..self }
    }

    /// The segment with its checksum computed over the pseudo-header and its
    /// own wire form, taken with the checksum field set to zero.
    pub open spec fn sealed(self, source: u32, destination: u32, protocol: u8) -> SpecTCP {
        self.with_checksum(
            checksum_of(
                pseudo_header(source, destination, protocol, self.len() as u16) + self.with_checksum(
                    0,
                ).bytes(),
            ),
        )
    }
}

/// Decoding of a TCP segment received between the two addresses: the
/// checksum over pseudo-header and segment must verify, then the header
/// fields, options and data are read.
#[verifier::opaque]
pub open spec fn parse_tcp(s: Seq<u8>, source: u32, destination: u32, protocol: u8) -> Result<
    SpecTCP,
    IPPacketErrorKind,
> {
    if s.len() > 0xFFFF {
        Err(IPPacketErrorKind::MalformedInput)
    } else if ones_complement_sum(pseudo_header(source, destination, protocol, s.len() as u16) + s)
        != 0xFFFF {
        Err(IPPacketErrorKind::TCPChecksumError)
    } else if s.len() < 20 {
        Err(IPPacketErrorKind::MalformedInput)
    } else {
        let offset = (s[12] / 16) as u8;
        if offset < 5 || s.len() < offset * 4 {
            Err(IPPacketErrorKind::MalformedInput)
        } else {
            Ok(
                SpecTCP {
                    source_port: u16_at(s, 0),
                    destination_port: u16_at(s, 2),
                    sequence_number: u32_at(s, 4),
                    acknowledgment_number: u32_at(s, 8),
                    data_offset: offset,
                    reserved: (s[12] % 16 * 4 + s[13] / 64) as u8,
                    control_bits: s[13] % 64,
                    window: u16_at(s, 14),
                    checksum: u16_at(s, 16),
                    urgent_pointer: u16_at(s, 18),
                    options: if offset == 5 {
                        None
                    } else {
                        Some(s.subrange(20, offset * 4))
                    },
                    data: s.skip(offset * 4),
                },
            )
        }
    }
}

proof fn lemma_offset_bytes(offset: u8, reserved: u8, control_bits: u8)
    requires
        offset < 16,
        reserved < 64,
        control_bits < 64,
    ensures
        ({
            let b12 = (offset * 16 + reserved / 4) as u8;
            let b13 = (reserved % 4 * 64 + control_bits) as u8;
            &&& b12 / 16 == offset
            &&& b12 % 16 * 4 + b13 / 64 == reserved
            &&& b13 % 64 == control_bits
        }),
{
    let b12 = (offset * 16 + reserved / 4) as u8;
    let b13 = (reserved % 4 * 64 + control_bits) as u8;
    assert(b12 == offset * 16 + reserved / 4);
    assert(b13 == reserved % 4 * 64 + control_bits);
    assert(b12 / 16 == offset && b12 % 16 == reserved / 4) by (nonlinear_arith)
        requires
            b12 == offset * 16 + reserved / 4,
            reserved < 64,
    ;
    assert(b13 / 64 == reserved % 4 && b13 % 64 == control_bits) by (nonlinear_arith)
        requires
            b13 == reserved % 4 * 64 + control_bits,
            control_bits < 64,
    ;
}

/// A well-formed segment with aligned options whose checksum verifies
/// between the given addresses decodes from its wire form to itself.
pub proof fn lemma_tcp_round_trip(t: SpecTCP, source: u32, destination: u32, protocol: u8)
    requires
        t.wf(),
        t.options_aligned(),
        t.len() <= 0xFFFF,
        ones_complement_sum(pseudo_header(source, destination, protocol, t.len() as u16) + t.bytes())
            == 0xFFFF,
    ensures
        parse_tcp(t.bytes(), source, destination, protocol) == Ok::<SpecTCP, IPPacketErrorKind>(t),
{
    reveal(parse_tcp);
    let s = t.bytes();
    let o = opt_bytes(t.options);
    let before = t.bytes_before_checksum();
    assert(before.len() == 16);
    assert(padded(o) =~= o);
    assert(s.len() == t.len());
    assert(t.data_offset * 4 == 20 + o.len());
    assert(s.subrange(0, 2) =~= be16(t.source_port));
    assert(s.subrange(2, 4) =~= be16(t.destination_port));
    assert(s.subrange(4, 8) =~= be32(t.sequence_number));
    assert(s.subrange(8, 12) =~= be32(t.acknowledgment_number));
    assert(s.subrange(14, 16) =~= be16(t.window));
    assert(s.subrange(16, 18) =~= be16(t.checksum));
    assert(s.subrange(18, 20) =~= be16(t.urgent_pointer));
    lemma_be16_u16_at(t.source_port, s, 0);
    lemma_be16_u16_at(t.destination_port, s, 2);
    lemma_be32_u32_at(t.sequence_number, s, 4);
    lemma_be32_u32_at(t.acknowledgment_number, s, 8);
    lemma_be16_u16_at(t.window, s, 14);
    lemma_be16_u16_at(t.checksum, s, 16);
    lemma_be16_u16_at(t.urgent_pointer, s, 18);
    assert(s[12] == before[12] && s[13] == before[13]);
    lemma_offset_bytes(t.data_offset, t.reserved, t.control_bits);
    if t.data_offset > 5 {
        assert(s.subrange(20, t.data_offset * 4) =~= o);
    }
    assert(s.skip(t.data_offset * 4) =~= t.data);
    let p = parse_tcp(s, source, destination, protocol)->Ok_0;
    assert(p == t);
}

/// The options a decoder reads back: none for no option bytes, else the
/// option bytes with their zero padding.
pub open spec fn decoded_options(o: Option<Seq<u8>>) -> Option<Seq<u8>> {
    if opt_bytes(o).len() == 0 {
        None
    } else {
        Some(padded(opt_bytes(o)))
    }
}

/// Any well-formed segment whose checksum verifies decodes from its wire
/// form to itself, except that its options come back padded with zeros to
/// a 4-byte boundary (and empty options come back absent).
pub proof fn lemma_tcp_padded_round_trip(t: SpecTCP, source: u32, destination: u32, protocol: u8)
    requires
        t.wf(),
        t.len() <= 0xFFFF,
        ones_complement_sum(pseudo_header(source, destination, protocol, t.len() as u16) + t.bytes())
            == 0xFFFF,
    ensures
        parse_tcp(t.bytes(), source, destination, protocol) == Ok::<SpecTCP, IPPacketErrorKind>(
            SpecTCP { options: decoded_options(t.options), ..t },
        ),
{
    let o = opt_bytes(t.options);
    let p = padded(o);
    let u = SpecTCP { options: decoded_options(t.options), ..t };
    let n = o.len();
    assert(p.len() == n + padding_len(n));
    assert(padded(p) =~= p);
    assert((n + padding_len(n) + 3) / 4 == (n + 3) / 4);
    assert(padded(opt_bytes(u.options)) == p);
    assert(u.bytes() =~= t.bytes());
    lemma_tcp_round_trip(u, source, destination, protocol);
}

/// A successful decode is well formed with aligned options, and encodes
/// back to exactly the bytes it was read from.
pub proof fn lemma_tcp_reencode(s: Seq<u8>, source: u32, destination: u32, protocol: u8)
    requires
        parse_tcp(s, source, destination, protocol) is Ok,
    ensures
        parse_tcp(s, source, destination, protocol)->Ok_0.wf(),
        parse_tcp(s, source, destination, protocol)->Ok_0.options_aligned(),
        parse_tcp(s, source, destination, protocol)->Ok_0.len() == s.len(),
        parse_tcp(s, source, destination, protocol)->Ok_0.bytes() == s,
        parse_tcp(parse_tcp(s, source, destination, protocol)->Ok_0.bytes(), source, destination, protocol)
            == parse_tcp(s, source, destination, protocol),
{
    reveal(parse_tcp);
    let t = parse_tcp(s, source, destination, protocol)->Ok_0;
    let o = opt_bytes(t.options);
    assert(o.len() == t.data_offset * 4 - 20);
    assert(padded(o) =~= o);
    lemma_u16_at_be16(s, 0);
    lemma_u16_at_be16(s, 2);
    lemma_u32_at_be32(s, 4);
    lemma_u32_at_be32(s, 8);
    lemma_u16_at_be16(s, 14);
    lemma_u16_at_be16(s, 16);
    lemma_u16_at_be16(s, 18);
    let b12 = s[12];
    let b13 = s[13];
    let reserved = t.reserved;
    assert(reserved == b12 % 16 * 4 + b13 / 64);
    assert(t.data_offset * 16 + reserved / 4 == b12 && reserved % 4 * 64 + t.control_bits == b13)
        by (nonlinear_arith)
        requires
            t.data_offset == b12 / 16,
            reserved == b12 % 16 * 4 + b13 / 64,
            t.control_bits == b13 % 64,
            0 <= b13 < 256,
    ;
    assert(t.bytes() =~= s);
    lemma_tcp_round_trip(t, source, destination, protocol);
}

/// A segment whose checksum field was changed after it verified no longer
/// decodes: the result is a TCP checksum error. The one exception is a swap
/// of `0x0000` and `0xFFFF`, which both stand for zero.
pub proof fn lemma_tcp_corrupted_checksum(
    t: SpecTCP,
    source: u32,
    destination: u32,
    protocol: u8,
    checksum: u16,
)
    requires
        t.len() <= 0xFFFF,
        ones_complement_sum(pseudo_header(source, destination, protocol, t.len() as u16) + t.bytes())
            == 0xFFFF,
        checksum != t.checksum,
        !(t.checksum == 0 && checksum == 0xFFFF),
        !(t.checksum == 0xFFFF && checksum == 0),
    ensures
        parse_tcp(t.with_checksum(checksum).bytes(), source, destination, protocol) == Err::<
            SpecTCP,
            IPPacketErrorKind,
        >(IPPacketErrorKind::TCPChecksumError),
{
    let ph = pseudo_header(source, destination, protocol, t.len() as u16);
    let c = t.with_checksum(checksum);
    assert(c.bytes_before_checksum() == t.bytes_before_checksum());
    assert(c.bytes_after_checksum() == t.bytes_after_checksum());
    assert(c.bytes().len() == t.len());
    assert(ph + t.bytes() =~= ph + t.bytes_before_checksum() + be16(t.checksum)
        + t.bytes_after_checksum());
    assert(ph + c.bytes() =~= ph + t.bytes_before_checksum() + be16(checksum)
        + t.bytes_after_checksum());
    lemma_checksum_field_changed(
        ph + t.bytes_before_checksum(),
        t.bytes_after_checksum(),
        t.checksum,
        checksum,
    );
    let s = c.bytes();
    assert(ones_complement_sum(pseudo_header(source, destination, protocol, s.len() as u16) + s)
        != 0xFFFF);
    reveal(parse_tcp);
}

/// A sealed segment verifies against the same pseudo-header.
pub proof fn lemma_tcp_sealed(t: SpecTCP, source: u32, destination: u32, protocol: u8)
    ensures
        ones_complement_sum(
            pseudo_header(source, destination, protocol, t.len() as u16) + t.sealed(
                source,
                destination,
                protocol,
            ).bytes(),
        ) == 0xFFFF,
{
    let z = t.with_checksum(0);
    let ph = pseudo_header(source, destination, protocol, t.len() as u16);
    lemma_checksum_field(ph + z.bytes_before_checksum(), z.bytes_after_checksum());
    assert(ph + z.bytes() =~= ph + z.bytes_before_checksum() + be16(0) + z.bytes_after_checksum());
    let c = checksum_of(ph + z.bytes());
    assert(ph + t.sealed(source, destination, protocol).bytes() =~= ph + z.bytes_before_checksum()
        + be16(c) + z.bytes_after_checksum());
}

/// A TCP segment.
pub struct TCP {
    pub source_port: u16,
    pub destination_port: u16,
    pub sequence_number: u32,
    pub acknowledgment_number: u32,
    pub data_offset: u8,
    pub reserved: u8,
    pub control_bits: u8,
    pub window: u16,
    pub checksum: u16,
    pub urgent_pointer: u16,
    pub options: Option<Vec<u8>>,
    pub data: Vec<u8>,
}

impl View for TCP {
    type V = SpecTCP;

    open spec fn view(&self) -> SpecTCP {
        SpecTCP {
            source_port: self.source_port,
            destination_port: self.destination_port,
            sequence_number: self.sequence_number,
            acknowledgment_number: self.acknowledgment_number,
            data_offset: self.data_offset,
            reserved: self.reserved,
            control_bits: self.control_bits,
            window: self.window,
            checksum: self.checksum,
            urgent_pointer: self.urgent_pointer,
            options: opt_view(self.options),
            data: self.data@,
        }
    }
}

impl TCP {
    /// Builds a segment sent from `source_address` to `destination_address`:
    /// the data offset is derived from the options, and the checksum is
    /// computed over the pseudo-header and the segment.
    pub fn new(
        source_address: u32,
        destination_address: u32,
        protocol: u8,
        source_port: u16,
        destination_port: u16,
        sequence_number: u32,
        acknowledgment_number: u32,
        reserved: u8,
        control_bits: u8,
        window: u16,
        urgent_pointer: u16,
        options: Option<Vec<u8>>,
        data: Vec<u8>,
    ) -> (r: Self)
        requires
            reserved < 64,
            control_bits < 64,
            opt_bytes(opt_view(options)).len() <= 40,
            20 + padded(opt_bytes(opt_view(options))).len() + data@.len() <= 0xFFFF,
        ensures
            r@ == (SpecTCP {
                source_port,
                destination_port,
                sequence_number,
                acknowledgment_number,
                data_offset: data_offset_for(opt_bytes(opt_view(options)).len()) as u8,
                reserved,
                control_bits,
                window,
                checksum: 0,
                urgent_pointer,
                options: opt_view(options),
                data: data@,
            }).sealed(source_address, destination_address, protocol),
            r@.wf(),
            ones_complement_sum(
                pseudo_header(source_address, destination_address, protocol, r@.len() as u16)
                    + r@.bytes(),
            ) == 0xFFFF,
    {
        let data_offset: u8 = match &options {
            Some(option) => {
                let n = option.len();
                5 + (n / 4) as u8 + if n % 4 == 0 {
                    0
                } else {
                    1
                }
            },
            None => 5,
        };
        let mut tcp = Self {
            source_port,
            destination_port,
            sequence_number,
            acknowledgment_number,
            data_offset,
            reserved,
            control_bits,
            window,
            checksum: 0x0,
            urgent_pointer,
            options,
            data,
        };
        let tcp_length = tcp.len();
        let mut pseudo = Self::craft_pseudo_header(
            source_address,
            destination_address,
            protocol,
            tcp_length as u16,
        );
        let segment = tcp.to_byte_buffer();
        push_bytes(&mut pseudo, segment.as_slice());
        tcp.checksum = checksum_value(pseudo.as_slice());
        proof {
            lemma_tcp_sealed(tcp@, source_address, destination_address, protocol);
            assert(tcp@ == tcp@.with_checksum(0).sealed(source_address, destination_address, protocol));
        }
        tcp
    }

    /// The wire form: fixed fields, options padded with zeros to a 4-byte
    /// boundary, then data.
    pub fn to_byte_buffer(&self) -> (r: Vec<u8>)
        requires
            self@.wf(),
            self@.len() <= usize::MAX,
        ensures
            r@ == self@.bytes(),
    {
        let data_offset = self.data_offset;
        let reserved = self.reserved;
        let control_bits = self.control_bits;
        assert((data_offset << 4) | (reserved >> 2) == data_offset * 16 + reserved / 4
            && ((reserved & 3) << 6) | control_bits == reserved % 4 * 64 + control_bits)
            by (bit_vector)
            requires
                data_offset < 16,
                reserved < 64,
                control_bits < 64,
        ;
        let mut buf: Vec<u8> = Vec::new();
        push_u16(&mut buf, self.source_port);
        push_u16(&mut buf, self.destination_port);
        push_u32(&mut buf, self.sequence_number);
        push_u32(&mut buf, self.acknowledgment_number);
        buf.push((data_offset << 4) | (reserved >> 2));
        buf.push(((reserved & 3) << 6) | control_bits);
        push_u16(&mut buf, self.window);
        push_u16(&mut buf, self.checksum);
        push_u16(&mut buf, self.urgent_pointer);
        let ghost fixed = buf@;
        match &self.options {
            Some(options) => {
                push_bytes(&mut buf, options.as_slice());
                if options.len() % 4 != 0 {
                    let pad = 4 - options.len() % 4;
                    let mut i: usize = 0;
                    while i < pad
                        invariant
                            pad == padding_len(options@.len()),
                            i <= pad,
                            buf@ == fixed + options@ + Seq::new(i as nat, |j: int| 0u8),
                        decreases pad - i,
                    {
                        buf.push(0u8);
                        i = i + 1;
                        assert(buf@ =~= fixed + options@ + Seq::new(i as nat, |j: int| 0u8));
                    }
                } else {
                    assert(buf@ =~= fixed + padded(options@));
                }
                assert(buf@ =~= fixed + padded(options@));
            },
            None => {
                assert(buf@ =~= fixed + padded(Seq::empty()));
            },
        }
        push_bytes(&mut buf, self.data.as_slice());
        assert(buf@ =~= self@.bytes());
        buf
    }

    /// Decodes a segment received from `source_address` for
    /// `destination_address`, checking the pseudo-header checksum first.
    pub fn from_byte_buffer(
        buf: &[u8],
        source_address: u32,
        destination_address: u32,
        protocol: u8,
    ) -> (r: Result<TCP, IPPacketError>)
        ensures
            agrees(r, parse_tcp(buf@, source_address, destination_address, protocol)),
    {
        proof {
            reveal(parse_tcp);
        }
        if buf.len() > 0xFFFF {
            return Err(IPPacketError::new(IPPacketErrorKind::MalformedInput));
        }
        let mut pseudo = Self::craft_pseudo_header(
            source_address,
            destination_address,
            protocol,
            buf.len() as u16,
        );
        push_bytes(&mut pseudo, buf);
        if !verify_checksum(pseudo.as_slice()) {
            return Err(IPPacketError::new(IPPacketErrorKind::TCPChecksumError));
        }
        if buf.len() < 20 {
            return Err(IPPacketError::new(IPPacketErrorKind::MalformedInput));
        }
        let b12 = buf[12];
        let b13 = buf[13];
        assert(b12 >> 4 == b12 / 16 && ((b12 & 0x0f) << 2) | (b13 >> 6) == b12 % 16 * 4 + b13 / 64
            && b13 & 0x3f == b13 % 64) by (bit_vector);
        let data_offset = b12 >> 4;
        if data_offset < 5 || buf.len() < (data_offset as usize) * 4 {
            return Err(IPPacketError::new(IPPacketErrorKind::MalformedInput));
        }
        let header_len = (data_offset as usize) * 4;
        let options = if data_offset == 5 {
            None
        } else {
            Some(copy_range(buf, 20, header_len))
        };
        let data = copy_range(buf, header_len, buf.len());
        assert(data@ =~= buf@.skip(header_len as int));
        Ok(
            Self {
                source_port: read_u16(buf, 0),
                destination_port: read_u16(buf, 2),
                sequence_number: read_u32(buf, 4),
                acknowledgment_number: read_u32(buf, 8),
                data_offset,
                reserved: ((b12 & 0x0f) << 2) | (b13 >> 6),
                control_bits: b13 & 0x3f,
                window: read_u16(buf, 14),
                checksum: read_u16(buf, 16),
                urgent_pointer: read_u16(buf, 18),
                options,
                data,
            },
        )
    }

    fn craft_pseudo_header(
        source_address: u32,
        destination_address: u32,
        protocol: u8,
        tcp_length: u16,
    ) -> (r: Vec<u8>)
        ensures
            r@ == pseudo_header(source_address, destination_address, protocol, tcp_length),
    {
        let mut pseudo: Vec<u8> = Vec::new();
        push_u32(&mut pseudo, source_address);
        push_u32(&mut pseudo, destination_address);
        pseudo.push(0x0);
        pseudo.push(protocol);
        push_u16(&mut pseudo, tcp_length);
        assert(pseudo@ =~= pseudo_header(source_address, destination_address, protocol, tcp_length));
        pseudo
    }

    /// Segment length: 20 header bytes, padded options, data.
    pub fn len(&self) -> (r: usize)
        requires
            self@.len() <= usize::MAX,
        ensures
            r == self@.len(),
    {
        let options_len: usize = match &self.options {
            Some(option) => {
                let n = option.len();
                n + if n % 4 == 0 {
                    0
                } else {
                    4 - n % 4
                }
            },
            None => 0,
        };
        20 + options_len + self.data.len()
    }
}

/// The six TCP control flags, each a single-bit mask.
#[derive(Debug, Clone, Copy, PartialEq, Eq, Structural)]
pub enum TCPControlBits {
    URG,
    ACK,
    PSH,
    RST,
    SYN,
    FIN,
}

impl TCPControlBits {
    /// The mask of each flag.
    pub open spec fn mask(self) -> u8 {
        match self {
            TCPControlBits::URG => 0b100000,
            TCPControlBits::ACK => 0b10000,
            TCPControlBits::PSH => 0b1000,
            TCPControlBits::RST => 0b100,
            TCPControlBits::SYN => 0b10,
            TCPControlBits::FIN => 0b1,
        }
    }

    /// The flag whose mask is `control_bit`; any other value, including a
    /// combination of flags, is rejected.
    pub fn from_u8(control_bit: u8) -> (r: Result<Self, IPPacketError>)
        ensures
            r matches Ok(flag) ==> flag.mask() == control_bit,
            r is Err <==> !(control_bit == 0b100000 || control_bit == 0b10000 || control_bit == 0b1000
                || control_bit == 0b100 || control_bit == 0b10 || control_bit == 0b1),
            r matches Err(e) ==> e.kind == IPPacketErrorKind::MalformedInput,
    {
        match control_bit {
            0b100000 => Ok(Self::URG),
            0b10000 => Ok(Self::ACK),
            0b1000 => Ok(Self::PSH),
            0b100 => Ok(Self::RST),
            0b10 => Ok(Self::SYN),
            0b1 => Ok(Self::FIN),
            _ => Err(IPPacketError::new(IPPacketErrorKind::MalformedInput)),
        }
    }

    pub fn to_u8(&self) -> (r: u8)
        ensures
            r == self.mask(),
    {
        match self {
            Self::URG => 0b100000,
            Self::ACK => 0b10000,
            Self::PSH => 0b1000,
            Self::RST => 0b100,
            Self::SYN => 0b10,
            Self::FIN => 0b1,
        }
    }
}

} // verus!
