//! Construction of full IP + UDP datagrams for transparent forwarding,
//! with the header and checksum work supplied by the `etherparse` crate
//! behind trusted wrappers.

use vstd::prelude::*;

use crate::gelf::pow256;
use crate::net::{IpAddress, SockAddress};

verus! {

/// A 16-bit value as two big-endian bytes.
pub open spec fn spec_be16(x: u16) -> Seq<u8> {
    seq![(x / 256) as u8, (x % 256) as u8]
}

/// A 32-bit value as four big-endian bytes.
pub open spec fn spec_u32_be(x: u32) -> Seq<u8> {
    seq![
        (x / 0x1000000) as u8,
        ((x / 0x10000) % 256) as u8,
        ((x / 0x100) % 256) as u8,
        (x % 256) as u8,
    ]
}

/// A 128-bit value as sixteen big-endian bytes.
pub open spec fn spec_u128_be(x: u128) -> Seq<u8> {
    Seq::new(16, |i: int| ((x as nat / pow256((15 - i) as nat)) % 256) as u8)
}

/// The fixed layout of a built IPv4+UDP datagram: version 4 with a
/// 20-byte header, total length over the whole datagram, TTL 32,
/// protocol UDP, the given addresses, the given ports, the UDP length
/// over header and payload, and the payload at the tail unchanged. The
/// two checksums are the only bytes this does not pin.
pub open spec fn spec_v4_layout(
    v: Seq<u8>,
    src_ip: u32,
    dst_ip: u32,
    src_port: u16,
    dst_port: u16,
    payload: Seq<u8>,
) -> bool {
    &&& v.len() == V4_HEADERS_LEN + payload.len()
    &&& v[0] == 0x45
    &&& v.subrange(2, 4) == spec_be16((28 + payload.len()) as u16)
    &&& v[8] == 32
    &&& v[9] == 17
    &&& v.subrange(12, 16) == spec_u32_be(src_ip)
    &&& v.subrange(16, 20) == spec_u32_be(dst_ip)
    &&& v.subrange(20, 22) == spec_be16(src_port)
    &&& v.subrange(22, 24) == spec_be16(dst_port)
    &&& v.subrange(24, 26) == spec_be16((8 + payload.len()) as u16)
    &&& v.subrange(28, v.len() as int) == payload
}

/// The fixed layout of a built IPv6+UDP datagram: version 6 with zero
/// traffic class and flow label, payload length over UDP header and
/// payload, next header UDP, hop limit 64, the given addresses, the
/// given ports, and the payload at the tail unchanged. The UDP checksum
/// is the only part this does not pin.
pub open spec fn spec_v6_layout(
    v: Seq<u8>,
    src_ip: u128,
    dst_ip: u128,
    src_port: u16,
    dst_port: u16,
    payload: Seq<u8>,
) -> bool {
    &&& v.len() == V6_HEADERS_LEN + payload.len()
    &&& v[0] == 0x60
    &&& v[1] == 0
    &&& v[2] == 0
    &&& v[3] == 0
    &&& v.subrange(4, 6) == spec_be16((8 + payload.len()) as u16)
    &&& v[6] == 17
    &&& v[7] == 64
    &&& v.subrange(8, 24) == spec_u128_be(src_ip)
    &&& v.subrange(24, 40) == spec_u128_be(dst_ip)
    &&& v.subrange(40, 42) == spec_be16(src_port)
    &&& v.subrange(42, 44) == spec_be16(dst_port)
    &&& v.subrange(44, 46) == spec_be16((8 + payload.len()) as u16)
    &&& v.subrange(48, v.len() as int) == payload
}

/// The fixed UDP source port stamped on every transparently forwarded
/// datagram.
pub const SPOOFED_UDP_SOURCE_PORT: u16 = 6666;

/// Overhead of an IPv4 header without options plus a UDP header.
pub const V4_HEADERS_LEN: usize = 28;

/// Overhead of an IPv6 header plus a UDP header.
pub const V6_HEADERS_LEN: usize = 48;

/// The wire bytes of an IPv4+UDP datagram with the given addresses,
/// ports and payload: a function of those arguments alone.
pub uninterp spec fn v4_datagram_of(
    src_ip: u32,
    dst_ip: u32,
    src_port: u16,
    dst_port: u16,
    payload: Seq<u8>,
) -> Seq<u8>;

/// The wire bytes of an IPv6+UDP datagram with the given addresses,
/// ports and payload: a function of those arguments alone.
pub uninterp spec fn v6_datagram_of(
    src_ip: u128,
    dst_ip: u128,
    src_port: u16,
    dst_port: u16,
    payload: Seq<u8>,
) -> Seq<u8>;

/// Relies on etherparse's `PacketBuilder::ipv4(..).udp(..)` written to a
/// growable buffer: a 20-byte IPv4 header (TTL 32, protocol UDP,
/// checksummed) and an 8-byte UDP header, followed by the payload
/// unchanged. The builder refuses only a payload too large for the IPv4
/// total-length field; writing to a `Vec` cannot hit an I/O error.
#[verifier::external_body]
fn build_v4_datagram(
    src_ip: u32,
    dst_ip: u32,
    src_port: u16,
    dst_port: u16,
    payload: &[u8],
) -> (r: Option<Vec<u8>>)
    ensures
        payload@.len() + V4_HEADERS_LEN <= 65535 ==> r is Some,
        match r {
            Some(v) => {
                &&& v@ == v4_datagram_of(src_ip, dst_ip, src_port, dst_port, payload@)
                &&& spec_v4_layout(v@, src_ip, dst_ip, src_port, dst_port, payload@)
            },
            None => true,
        },
{
    let builder = etherparse::PacketBuilder::ipv4(src_ip.to_be_bytes(), dst_ip.to_be_bytes(), 32)
        .udp(src_port, dst_port);
    let mut result = Vec::<u8>::with_capacity(builder.size(payload.len()));
    match builder.write(&mut result, payload) {
        Ok(()) => Some(result),
        Err(_) => None,
    }
}

/// Relies on etherparse's `PacketBuilder::ipv6(..).udp(..)` written to a
/// growable buffer: a 40-byte IPv6 header (hop limit 64, zero traffic
/// class and flow label, next header UDP) and an 8-byte UDP header,
/// followed by the payload unchanged. The builder refuses only a payload
/// too large for the UDP length field; writing to a `Vec` cannot hit an
/// I/O error.
#[verifier::external_body]
fn build_v6_datagram(
    src_ip: u128,
    dst_ip: u128,
    src_port: u16,
    dst_port: u16,
    payload: &[u8],
) -> (r: Option<Vec<u8>>)
    ensures
        payload@.len() + V6_HEADERS_LEN <= 65575 ==> r is Some,
        match r {
            Some(v) => {
                &&& v@ == v6_datagram_of(src_ip, dst_ip, src_port, dst_port, payload@)
                &&& spec_v6_layout(v@, src_ip, dst_ip, src_port, dst_port, payload@)
            },
            None => true,
        },
{
    let builder = etherparse::PacketBuilder::ipv6(src_ip.to_be_bytes(), dst_ip.to_be_bytes(), 64)
        .udp(src_port, dst_port);
    let mut result = Vec::<u8>::with_capacity(builder.size(payload.len()));
    match builder.write(&mut result, payload) {
        Ok(()) => Some(result),
        Err(_) => None,
    }
}

/// Why a raw datagram could not be built.
#[derive(Clone, Copy, PartialEq, Eq, Structural, Debug)]
pub enum BuildError {
    /// Source and destination are not of the same address family.
    MixedAddressFamilies,
    /// The payload does not fit a single IP datagram.
    PayloadTooLarge,
}

/// The headers-plus-payload bytes a successful build yields, by family.
pub open spec fn spec_custom_packet(src: SockAddress, dst: SockAddress, payload: Seq<u8>) -> Seq<
    u8,
> {
    match (src.ip, dst.ip) {
        (IpAddress::V4(s), IpAddress::V4(d)) => v4_datagram_of(
            s,
            d,
            SPOOFED_UDP_SOURCE_PORT,
            dst.port,
            payload,
        ),
        (IpAddress::V6(s), IpAddress::V6(d)) => v6_datagram_of(
            s,
            d,
            SPOOFED_UDP_SOURCE_PORT,
            dst.port,
            payload,
        ),
        _ => Seq::empty(),
    }
}

/// Whether a payload fits a single datagram of the source's family.
pub open spec fn spec_payload_fits(src: SockAddress, payload_len: nat) -> bool {
    if src.spec_is_v4() {
        payload_len + V4_HEADERS_LEN <= 65535
    } else {
        payload_len + V6_HEADERS_LEN <= 65575
    }
}

/// Build the full IP+UDP wire bytes of one transparently forwarded
/// datagram: source address spoofed to the original sender, destination
/// the selected backend, UDP source port fixed. Mixed address families
/// are rejected, as is a payload too large for one datagram.
pub fn build_custom_packet(source: &SockAddress, destination: &SockAddress, payload: &[u8]) -> (r:
    Result<Vec<u8>, BuildError>)
    ensures
        !source.same_family(*destination) <==> r == Err::<Vec<u8>, BuildError>(
            BuildError::MixedAddressFamilies,
        ),
        source.same_family(*destination) && spec_payload_fits(*source, payload@.len()) ==> r
            is Ok,
        match r {
            Ok(v) => {
                &&& source.same_family(*destination)
                &&& v@ == spec_custom_packet(*source, *destination, payload@)
                &&& match (source.ip, destination.ip) {
                    (IpAddress::V4(s), IpAddress::V4(d)) => spec_v4_layout(
                        v@,
                        s,
                        d,
                        SPOOFED_UDP_SOURCE_PORT,
                        destination.port,
                        payload@,
                    ),
                    (IpAddress::V6(s), IpAddress::V6(d)) => spec_v6_layout(
                        v@,
                        s,
                        d,
                        SPOOFED_UDP_SOURCE_PORT,
                        destination.port,
                        payload@,
                    ),
                    _ => false,
                }
                &&& payload@.len() <= v@.len()
                &&& v@.subrange(v@.len() - payload@.len(), v@.len() as int) == payload@
            },
            Err(e) => e == BuildError::MixedAddressFamilies || e == BuildError::PayloadTooLarge,
        },
{
    match (source.ip, destination.ip) {
        (IpAddress::V4(s), IpAddress::V4(d)) => {
            match build_v4_datagram(s, d, SPOOFED_UDP_SOURCE_PORT, destination.port, payload) {
                Some(v) => {
                    proof {
                        assert(v@.subrange(V4_HEADERS_LEN as int, v@.len() as int) =~= v@.subrange(
                            v@.len() - payload@.len(),
                            v@.len() as int,
                        ));
                    }
                    Ok(v)
                },
                None => Err(BuildError::PayloadTooLarge),
            }
        },
        (IpAddress::V6(s), IpAddress::V6(d)) => {
            match build_v6_datagram(s, d, SPOOFED_UDP_SOURCE_PORT, destination.port, payload) {
                Some(v) => {
                    proof {
                        assert(v@.subrange(V6_HEADERS_LEN as int, v@.len() as int) =~= v@.subrange(
                            v@.len() - payload@.len(),
                            v@.len() as int,
                        ));
                    }
                    Ok(v)
                },
                None => Err(BuildError::PayloadTooLarge),
            }
        },
        _ => Err(BuildError::MixedAddressFamilies),
    }
}

} // verus!
