//! Plain-value model of socket addresses.
//!
//! The balancer's logic only ever reads an address's family, its numeric
//! value and its port, so addresses are held as plain integers: an IPv4
//! address as its 32-bit big-endian value, an IPv6 address as its 128-bit
//! big-endian value.

use vstd::prelude::*;

use crate::payload::{spec_hex_digit, spec_u8_decimal, u8_decimal};

verus! {

#[derive(Clone, Copy, PartialEq, Eq, Structural, Debug)]
pub enum IpAddress {
    V4(u32),
    V6(u128),
}

#[derive(Clone, Copy, PartialEq, Eq, Structural, Debug)]
pub struct SockAddress {
    pub ip: IpAddress,
    pub port: u16,
}

impl IpAddress {
    pub open spec fn spec_is_v4(&self) -> bool {
        matches!(self, IpAddress::V4(_))
    }

    #[verifier::when_used_as_spec(spec_is_v4)]
    pub fn is_v4(&self) -> (r: bool)
        ensures
            r == self.spec_is_v4(),
    {
        matches!(self, IpAddress::V4(_))
    }

}

impl SockAddress {
    pub open spec fn spec_is_v4(&self) -> bool {
        self.ip.spec_is_v4()
    }

    #[verifier::when_used_as_spec(spec_is_v4)]
    pub fn is_v4(&self) -> (r: bool)
        ensures
            r == self.spec_is_v4(),
    {
        self.ip.is_v4()
    }

    /// Two addresses are of the same family when both are IPv4 or both IPv6.
    pub open spec fn same_family(self, other: SockAddress) -> bool {
        self.spec_is_v4() == other.spec_is_v4()
    }
}

/// Whether a source address's IP is admitted by the allow-list: an empty
/// list admits every source, a non-empty one only the listed IPs.
pub open spec fn spec_source_allowed(allowed: Seq<IpAddress>, src: IpAddress) -> bool {
    allowed.len() == 0 || allowed.contains(src)
}

pub fn source_allowed(allowed: &Vec<IpAddress>, src: &IpAddress) -> (r: bool)
    ensures
        r == spec_source_allowed(allowed@, *src),
{
    if allowed.len() == 0 {
        return true;
    }
    let n = allowed.len();
    for i in 0..n
        invariant
            n == allowed@.len(),
            forall|j: int| 0 <= j < i ==> allowed@[j] != *src,
    {
        if allowed[i] == *src {
            assert(allowed@.contains(*src));
            return true;
        }
    }
    assert(!allowed@.contains(*src));
    false
}


/// The dotted-decimal text of an IPv4 address value.
pub open spec fn spec_v4_text(v: u32) -> Seq<u8> {
    spec_u8_decimal((v / 0x1000000) as u8) + seq![0x2eu8] + spec_u8_decimal(
        ((v / 0x10000) % 256) as u8,
    ) + seq![0x2eu8] + spec_u8_decimal(((v / 0x100) % 256) as u8) + seq![0x2eu8] + spec_u8_decimal(
        (v % 256) as u8,
    )
}

/// The lower-case hex digits of one 16-bit group, without leading
/// zeros.
pub open spec fn spec_group_text(g: u16) -> Seq<u8> {
    if g < 0x10 {
        seq![spec_hex_digit(g as u8)]
    } else if g < 0x100 {
        seq![spec_hex_digit((g / 16) as u8), spec_hex_digit((g % 16) as u8)]
    } else if g < 0x1000 {
        seq![
            spec_hex_digit((g / 256) as u8),
            spec_hex_digit(((g / 16) % 16) as u8),
            spec_hex_digit((g % 16) as u8),
        ]
    } else {
        seq![
            spec_hex_digit((g / 4096) as u8),
            spec_hex_digit(((g / 256) % 16) as u8),
            spec_hex_digit(((g / 16) % 16) as u8),
            spec_hex_digit((g % 16) as u8),
        ]
    }
}

/// One group of an IPv6 address value, most significant group first.
pub open spec fn spec_v6_group(v: u128, i: int) -> u16 {
    ((v >> (((7 - i) * 16) as u128)) & 0xffff) as u16
}

/// The text of an IPv6 address value: all eight groups in lower-case
/// hex, joined with colons. Runs of zero groups are not shortened with
/// a double colon.
pub open spec fn spec_v6_text(v: u128) -> Seq<u8> {
    spec_group_text(spec_v6_group(v, 0)) + seq![0x3au8] + spec_group_text(spec_v6_group(v, 1))
        + seq![0x3au8] + spec_group_text(spec_v6_group(v, 2)) + seq![0x3au8] + spec_group_text(
        spec_v6_group(v, 3),
    ) + seq![0x3au8] + spec_group_text(spec_v6_group(v, 4)) + seq![0x3au8] + spec_group_text(
        spec_v6_group(v, 5),
    ) + seq![0x3au8] + spec_group_text(spec_v6_group(v, 6)) + seq![0x3au8] + spec_group_text(
        spec_v6_group(v, 7),
    )
}

/// The text of an IP address.
pub open spec fn spec_ip_text(ip: IpAddress) -> Seq<u8> {
    match ip {
        IpAddress::V4(v) => spec_v4_text(v),
        IpAddress::V6(v) => spec_v6_text(v),
    }
}

fn group_text(g: u16) -> (r: Vec<u8>)
    ensures
        r@ == spec_group_text(g),
{
    let mut out: Vec<u8> = Vec::new();
    if g < 0x10 {
        out.push(hex_digit_u16(g));
    } else if g < 0x100 {
        out.push(hex_digit_u16(g / 16));
        out.push(hex_digit_u16(g % 16));
    } else if g < 0x1000 {
        out.push(hex_digit_u16(g / 256));
        out.push(hex_digit_u16((g / 16) % 16));
        out.push(hex_digit_u16(g % 16));
    } else {
        out.push(hex_digit_u16(g / 4096));
        out.push(hex_digit_u16((g / 256) % 16));
        out.push(hex_digit_u16((g / 16) % 16));
        out.push(hex_digit_u16(g % 16));
    }
    proof {
        assert(out@ =~= spec_group_text(g));
    }
    out
}

fn hex_digit_u16(v: u16) -> (r: u8)
    requires
        v < 16,
    ensures
        r == spec_hex_digit(v as u8),
{
    if v < 10 {
        0x30 + (v as u8)
    } else {
        0x57 + (v as u8)
    }
}

/// Emit an IP address as text: dotted decimal for IPv4, eight lower-case
/// hex groups joined with colons for IPv6.
pub fn ip_text(ip: &IpAddress) -> (r: Vec<u8>)
    ensures
        r@ == spec_ip_text(*ip),
{
    match ip {
        IpAddress::V4(v) => {
            let v = *v;
            let mut out = u8_decimal((v / 0x1000000) as u8);
            out.push(0x2e);
            let b = u8_decimal(((v / 0x10000) % 256) as u8);
            out.extend_from_slice(b.as_slice());
            out.push(0x2e);
            let c = u8_decimal(((v / 0x100) % 256) as u8);
            out.extend_from_slice(c.as_slice());
            out.push(0x2e);
            let d = u8_decimal((v % 256) as u8);
            out.extend_from_slice(d.as_slice());
            proof {
                assert(out@ =~= spec_v4_text(v));
            }
            out
        },
        IpAddress::V6(v) => {
            let v = *v;
            let mut out: Vec<u8> = Vec::new();
            let g0 = group_text((v >> 112) as u16);
            out.extend_from_slice(g0.as_slice());
            out.push(0x3a);
            let g1 = group_text(((v >> 96) & 0xffff) as u16);
            out.extend_from_slice(g1.as_slice());
            out.push(0x3a);
            let g2 = group_text(((v >> 80) & 0xffff) as u16);
            out.extend_from_slice(g2.as_slice());
            out.push(0x3a);
            let g3 = group_text(((v >> 64) & 0xffff) as u16);
            out.extend_from_slice(g3.as_slice());
            out.push(0x3a);
            let g4 = group_text(((v >> 48) & 0xffff) as u16);
            out.extend_from_slice(g4.as_slice());
            out.push(0x3a);
            let g5 = group_text(((v >> 32) & 0xffff) as u16);
            out.extend_from_slice(g5.as_slice());
            out.push(0x3a);
            let g6 = group_text(((v >> 16) & 0xffff) as u16);
            out.extend_from_slice(g6.as_slice());
            out.push(0x3a);
            let g7 = group_text((v & 0xffff) as u16);
            out.extend_from_slice(g7.as_slice());
            proof {
                assert((v >> 112) & 0xffff == v >> 112) by (bit_vector);
                assert(spec_v6_group(v, 0) == (v >> 112) as u16);
                assert(spec_v6_group(v, 1) == ((v >> 96) & 0xffff) as u16);
                assert(spec_v6_group(v, 2) == ((v >> 80) & 0xffff) as u16);
                assert(spec_v6_group(v, 3) == ((v >> 64) & 0xffff) as u16);
                assert(spec_v6_group(v, 4) == ((v >> 48) & 0xffff) as u16);
                assert(spec_v6_group(v, 5) == ((v >> 32) & 0xffff) as u16);
                assert(spec_v6_group(v, 6) == ((v >> 16) & 0xffff) as u16);
                assert(v >> 0 == v) by (bit_vector);
                assert(spec_v6_group(v, 7) == (v & 0xffff) as u16);
                assert(out@ =~= spec_v6_text(v));
            }
            out
        },
    }
}

} // verus!
