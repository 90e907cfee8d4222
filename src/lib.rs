//! Packet-processing core of a small user-space IPv4 stack: the Internet
//! checksum, the IPv4 / ICMP / TCP codecs and a stateless responder.
//!
//! Every decoder is specified by a parse function over byte sequences
//! (`parse_ip_header`, `parse_icmp`, `parse_tcp`, `parse_ip_packet`), every
//! encoder by the wire form of a value's view (`bytes`), and the two are
//! tied together by round-trip lemmas next to them.
pub mod checksum;
pub mod ip;
pub mod protocol;
pub mod reply;
pub mod wire;
