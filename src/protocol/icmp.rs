//! The ICMP message codec.
use vstd::prelude::*;

use crate::checksum::{
    checksum_of, checksum_value, lemma_checksum_field, lemma_checksum_field_changed,
    ones_complement_sum, verify_checksum,
};
use crate::ip::{agrees, IPPacketError, IPPacketErrorKind};
use crate::wire::{
    be16, copy_range, lemma_be16_u16_at, lemma_u16_at_be16, push_bytes, push_u16, read_u16, u16_at,
};

verus! {

/// The mathematical content of an ICMP message body.
pub enum SpecICMPBody {
    EchoReply { identifier: u16, sequence_number: u16, data: Seq<u8> },
    DestinationUnreachable,
    SourceQuench,
    Redirect,
    Echo { identifier: u16, sequence_number: u16, data: Seq<u8> },
    TimeExceeded,
    ParameterProblem,
    Timestamp,
    TimestampReply,
    InformationRequest,
    InformationReply,
}

impl SpecICMPBody {
    /// Echo and echo reply bodies are the ones that carry decoded contents
    /// and can be encoded.
    pub open spec fn is_echo(self) -> bool {
        self is Echo || self is EchoReply
    }

    /// The ICMP type number that selects this variant.
    pub open spec fn type_number(self) -> u8 {
        match self {
            SpecICMPBody::EchoReply { .. } => 0,
            SpecICMPBody::DestinationUnreachable => 3,
            SpecICMPBody::SourceQuench => 4,
            SpecICMPBody::Redirect => 5,
            SpecICMPBody::Echo { .. } => 8,
            SpecICMPBody::TimeExceeded => 11,
            SpecICMPBody::ParameterProblem => 12,
            SpecICMPBody::Timestamp => 13,
            SpecICMPBody::TimestampReply => 14,
            SpecICMPBody::InformationRequest => 15,
            SpecICMPBody::InformationReply => 16,
        }
    }

    /// The wire form of an echo body: identifier, sequence number, data.
    pub open spec fn bytes(self) -> Seq<u8>
        recommends
            self.is_echo(),
    {
        match self {
            SpecICMPBody::EchoReply { identifier, sequence_number, data } => be16(identifier) + be16(
                sequence_number,
            ) + data,
            SpecICMPBody::Echo { identifier, sequence_number, data } => be16(identifier) + be16(
                sequence_number,
            ) + data,
            _ => Seq::empty(),
        }
    }
}

/// Decoding of the bytes that follow the 4-byte ICMP header, by type.
pub open spec fn parse_icmp_body(icmp_type: u8, s: Seq<u8>) -> Result<SpecICMPBody, IPPacketErrorKind> {
    if icmp_type == 0 || icmp_type == 8 {
        if s.len() < 4 {
            Err(IPPacketErrorKind::MalformedInput)
        } else if icmp_type == 0 {
            Ok(
                SpecICMPBody::EchoReply {
                    identifier: u16_at(s, 0),
                    sequence_number: u16_at(s, 2),
                    data: s.skip(4),
                },
            )
        } else {
            Ok(
                SpecICMPBody::Echo {
                    identifier: u16_at(s, 0),
                    sequence_number: u16_at(s, 2),
                    data: s.skip(4),
                },
            )
        }
    } else if icmp_type == 3 {
        Ok(SpecICMPBody::DestinationUnreachable)
    } else if icmp_type == 4 {
        Ok(SpecICMPBody::SourceQuench)
    } else if icmp_type == 5 {
        Ok(SpecICMPBody::Redirect)
    } else if icmp_type == 11 {
        Ok(SpecICMPBody::TimeExceeded)
    } else if icmp_type == 12 {
        Ok(SpecICMPBody::ParameterProblem)
    } else if icmp_type == 13 {
        Ok(SpecICMPBody::Timestamp)
    } else if icmp_type == 14 {
        Ok(SpecICMPBody::TimestampReply)
    } else if icmp_type == 15 {
        Ok(SpecICMPBody::InformationRequest)
    } else if icmp_type == 16 {
        Ok(SpecICMPBody::InformationReply)
    } else {
        Err(IPPacketErrorKind::NotImplementedYet)
    }
}

/// The mathematical content of an ICMP message.
pub struct SpecICMP {
    pub icmp_type: u8,
    pub code: u8,
    pub checksum: u16,
    pub body: SpecICMPBody,
}

impl SpecICMP {
    /// The wire form: type, code, checksum, then the body.
    pub open spec fn bytes(self) -> Seq<u8> {
        seq![self.icmp_type, self.code] + be16(self.checksum) + self.body.bytes()
    }

    pub open spec fn with_checksum(self, checksum: u16) -> SpecICMP {
        SpecICMP { checksum, ..self }
    }

    /// The message with its checksum computed over its own wire form, taken
    /// with the checksum field set to zero.
    pub open spec fn sealed(self) -> SpecICMP {
        self.with_checksum(checksum_of(self.with_checksum(0).bytes()))
    }
}

/// Decoding of a whole ICMP message: the checksum over all of `s` must
/// verify, then the body is selected by the type byte.
#[verifier::opaque]
pub open spec fn parse_icmp(s: Seq<u8>) -> Result<SpecICMP, IPPacketErrorKind> {
    if s.len() == 0 {
        Err(IPPacketErrorKind::MalformedInput)
    } else if ones_complement_sum(s) != 0xFFFF {
        Err(IPPacketErrorKind::ICMPChecksumError)
    } else if s.len() < 4 {
        Err(IPPacketErrorKind::MalformedInput)
    } else {
        match parse_icmp_body(s[0], s.skip(4)) {
            Ok(body) => Ok(SpecICMP { icmp_type: s[0], code: s[1], checksum: u16_at(s, 2), body }),
            Err(kind) => Err(kind),
        }
    }
}

/// An echo or echo reply message whose type byte matches its body and whose
/// checksum verifies decodes back from its wire form to itself.
pub proof fn lemma_icmp_round_trip(m: SpecICMP)
    requires
        m.body.is_echo(),
        m.icmp_type == m.body.type_number(),
        ones_complement_sum(m.bytes()) == 0xFFFF,
    ensures
        parse_icmp(m.bytes()) == Ok::<SpecICMP, IPPacketErrorKind>(m),
{
    reveal(parse_icmp);
    let s = m.bytes();
    let b = m.body.bytes();
    assert(s.subrange(2, 4) =~= be16(m.checksum));
    lemma_be16_u16_at(m.checksum, s, 2);
    assert(s.skip(4) =~= b);
    match m.body {
        SpecICMPBody::EchoReply { identifier, sequence_number, data } => {
            assert(b.subrange(0, 2) =~= be16(identifier));
            assert(b.subrange(2, 4) =~= be16(sequence_number));
            assert(b.skip(4) =~= data);
            lemma_be16_u16_at(identifier, b, 0);
            lemma_be16_u16_at(sequence_number, b, 2);
        },
        SpecICMPBody::Echo { identifier, sequence_number, data } => {
            assert(b.subrange(0, 2) =~= be16(identifier));
            assert(b.subrange(2, 4) =~= be16(sequence_number));
            assert(b.skip(4) =~= data);
            lemma_be16_u16_at(identifier, b, 0);
            lemma_be16_u16_at(sequence_number, b, 2);
        },
        _ => {},
    }
}

/// A successful decode of an echo or echo reply encodes back to exactly the
/// bytes it was read from.
pub proof fn lemma_icmp_reencode(s: Seq<u8>)
    requires
        parse_icmp(s) is Ok,
        parse_icmp(s)->Ok_0.body.is_echo(),
    ensures
        parse_icmp(s)->Ok_0.bytes() == s,
        parse_icmp(s)->Ok_0.icmp_type == parse_icmp(s)->Ok_0.body.type_number(),
        parse_icmp(parse_icmp(s)->Ok_0.bytes()) == parse_icmp(s),
{
    reveal(parse_icmp);
    let m = parse_icmp(s)->Ok_0;
    let rest = s.skip(4);
    lemma_u16_at_be16(s, 2);
    lemma_u16_at_be16(rest, 0);
    lemma_u16_at_be16(rest, 2);
    assert(m.body.bytes() =~= rest);
    assert(m.bytes() =~= s);
    lemma_icmp_round_trip(m);
}

/// A message whose checksum field was changed after it verified no longer
/// decodes: the result is an ICMP checksum error. The one exception is a
/// swap of `0x0000` and `0xFFFF`, which both stand for zero.
pub proof fn lemma_icmp_corrupted_checksum(m: SpecICMP, checksum: u16)
    requires
        ones_complement_sum(m.bytes()) == 0xFFFF,
        checksum != m.checksum,
        !(m.checksum == 0 && checksum == 0xFFFF),
        !(m.checksum == 0xFFFF && checksum == 0),
    ensures
        parse_icmp(m.with_checksum(checksum).bytes()) == Err::<SpecICMP, IPPacketErrorKind>(
            IPPacketErrorKind::ICMPChecksumError,
        ),
{
    reveal(parse_icmp);
    lemma_checksum_field_changed(seq![m.icmp_type, m.code], m.body.bytes(), m.checksum, checksum);
    assert(m.with_checksum(checksum).bytes().len() > 0);
}

/// A sealed message verifies.
pub proof fn lemma_icmp_sealed(m: SpecICMP)
    ensures
        ones_complement_sum(m.sealed().bytes()) == 0xFFFF,
{
    let z = m.with_checksum(0);
    lemma_checksum_field(seq![m.icmp_type, m.code], m.body.bytes());
    assert(z.bytes() == seq![m.icmp_type, m.code] + be16(0) + m.body.bytes());
}

/// An ICMP message body, selected by the message type.
#[derive(Debug, PartialEq, Clone)]
pub enum ICMPBody {
    EchoReply { identifier: u16, sequence_number: u16, data: Vec<u8> },
    DestinationUnreachable,
    SourceQuench,
    Redirect,
    Echo { identifier: u16, sequence_number: u16, data: Vec<u8> },
    TimeExceeded,
    ParameterProblem,
    Timestamp,
    TimestampReply,
    InformationRequest,
    InformationReply,
}

impl View for ICMPBody {
    type V = SpecICMPBody;

    open spec fn view(&self) -> SpecICMPBody {
        match self {
            ICMPBody::EchoReply { identifier, sequence_number, data } => SpecICMPBody::EchoReply {
                identifier: *identifier,
                sequence_number: *sequence_number,
                data: data@,
            },
            ICMPBody::DestinationUnreachable => SpecICMPBody::DestinationUnreachable,
            ICMPBody::SourceQuench => SpecICMPBody::SourceQuench,
            ICMPBody::Redirect => SpecICMPBody::Redirect,
            ICMPBody::Echo { identifier, sequence_number, data } => SpecICMPBody::Echo {
                identifier: *identifier,
                sequence_number: *sequence_number,
                data: data@,
            },
            ICMPBody::TimeExceeded => SpecICMPBody::TimeExceeded,
            ICMPBody::ParameterProblem => SpecICMPBody::ParameterProblem,
            ICMPBody::Timestamp => SpecICMPBody::Timestamp,
            ICMPBody::TimestampReply => SpecICMPBody::TimestampReply,
            ICMPBody::InformationRequest => SpecICMPBody::InformationRequest,
            ICMPBody::InformationReply => SpecICMPBody::InformationReply,
        }
    }
}

impl ICMPBody {
    /// The wire form of an echo or echo reply body.
    pub fn to_byte_buffer(&self) -> (r: Vec<u8>)
        requires
            self@.is_echo(),
        ensures
            r@ == self@.bytes(),
    {
        match self {
            ICMPBody::Echo { identifier, sequence_number, data }
            | ICMPBody::EchoReply { identifier, sequence_number, data } => {
                let mut buf: Vec<u8> = Vec::new();
                push_u16(&mut buf, *identifier);
                push_u16(&mut buf, *sequence_number);
                push_bytes(&mut buf, data.as_slice());
                assert(buf@ =~= self@.bytes());
                buf
            },
            _ => {
                assert(false);
                Vec::new()
            },
        }
    }

    /// Decodes the bytes that follow the ICMP header, as selected by `_type`.
    pub fn from_byte_buffer(_type: u8, body_buf: &[u8]) -> (r: Result<Self, IPPacketError>)
        ensures
            agrees(r, parse_icmp_body(_type, body_buf@)),
    {
        match _type {
            0 | 8 => {
                if body_buf.len() < 4 {
                    return Err(IPPacketError::new(IPPacketErrorKind::MalformedInput));
                }
                let identifier = read_u16(body_buf, 0);
                let sequence_number = read_u16(body_buf, 2);
                let data = copy_range(body_buf, 4, body_buf.len());
                assert(data@ =~= body_buf@.skip(4));
                if _type == 0 {
                    Ok(Self::EchoReply { identifier, sequence_number, data })
                } else {
                    Ok(Self::Echo { identifier, sequence_number, data })
                }
            },
            3 => Ok(Self::DestinationUnreachable),
            4 => Ok(Self::SourceQuench),
            5 => Ok(Self::Redirect),
            11 => Ok(Self::TimeExceeded),
            12 => Ok(Self::ParameterProblem),
            13 => Ok(Self::Timestamp),
            14 => Ok(Self::TimestampReply),
            15 => Ok(Self::InformationRequest),
            16 => Ok(Self::InformationReply),
            _ => Err(IPPacketError::new(IPPacketErrorKind::NotImplementedYet)),
        }
    }

    /// Length of the wire form of an echo or echo reply body.
    pub fn len(&self) -> (r: usize)
        requires
            self@.is_echo(),
            self@.bytes().len() <= usize::MAX,
        ensures
            r == self@.bytes().len(),
    {
        match self {
            ICMPBody::Echo { data, .. } | ICMPBody::EchoReply { data, .. } => 4 + data.len(),
            _ => {
                assert(false);
                0
            },
        }
    }
}

/// An ICMP message.
#[derive(Debug, Clone)]
pub struct ICMP {
    pub _type: u8,
    pub code: u8,
    pub checksum: u16,
    pub body: ICMPBody,
}

impl View for ICMP {
    type V = SpecICMP;

    open spec fn view(&self) -> SpecICMP {
        SpecICMP { icmp_type: self._type, code: self.code, checksum: self.checksum, body: self.body@ }
    }
}

impl ICMP {
    /// Builds a message and computes its checksum.
    pub fn new(_type: u8, code: u8, body: ICMPBody) -> (r: Self)
        requires
            body@.is_echo(),
            4 + body@.bytes().len() <= usize::MAX,
        ensures
            r@ == (SpecICMP { icmp_type: _type, code, checksum: 0, body: body@ }).sealed(),
            ones_complement_sum(r@.bytes()) == 0xFFFF,
    {
        let mut icmp = Self { _type, code, checksum: 0x0, body };
        let buf = icmp.to_byte_buffer();
        icmp.checksum = checksum_value(buf.as_slice());
        proof {
            lemma_icmp_sealed(icmp@);
            assert(icmp@ == icmp@.with_checksum(0).sealed());
        }
        icmp
    }

    /// Decodes a whole ICMP message; the checksum covers all of `buf`.
    pub fn from_byte_buffer(buf: &[u8]) -> (r: Result<Self, IPPacketError>)
        ensures
            agrees(r, parse_icmp(buf@)),
    {
        proof {
            reveal(parse_icmp);
        }
        if buf.len() == 0 {
            return Err(IPPacketError::new(IPPacketErrorKind::MalformedInput));
        }
        if !verify_checksum(buf) {
            return Err(IPPacketError::new(IPPacketErrorKind::ICMPChecksumError));
        }
        if buf.len() < 4 {
            return Err(IPPacketError::new(IPPacketErrorKind::MalformedInput));
        }
        let _type = buf[0];
        let code = buf[1];
        let checksum = read_u16(buf, 2);
        let rest = vstd::slice::slice_subrange(buf, 4, buf.len());
        assert(rest@ == buf@.skip(4));
        match ICMPBody::from_byte_buffer(_type, rest) {
            Ok(body) => Ok(Self { _type, code, checksum, body }),
            Err(e) => Err(e),
        }
    }

    /// The wire form: type, code, checksum, then the body.
    pub fn to_byte_buffer(&self) -> (r: Vec<u8>)
        requires
            self@.body.is_echo(),
            4 + self@.body.bytes().len() <= usize::MAX,
        ensures
            r@ == self@.bytes(),
    {
        let mut buf: Vec<u8> = Vec::new();
        buf.push(self._type);
        buf.push(self.code);
        push_u16(&mut buf, self.checksum);
        let body = self.body.to_byte_buffer();
        push_bytes(&mut buf, body.as_slice());
        assert(buf@ =~= self@.bytes());
        buf
    }

    /// Length of the wire form.
    pub fn len(&self) -> (r: usize)
        requires
            self@.body.is_echo(),
            4 + self@.body.bytes().len() <= usize::MAX,
        ensures
            r == self@.bytes().len(),
    {
        4 + self.body.len()
    }
}

} // verus!
