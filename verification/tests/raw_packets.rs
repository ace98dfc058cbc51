use gelflb::balancer::forward_datagrams;
use gelflb::gelf::{GelfMessageWrapper, GelfPacket};
use gelflb::net::{IpAddress, SockAddress};
use gelflb::packet_builder::{build_custom_packet, BuildError};

fn v4(ip: u32, port: u16) -> SockAddress {
    SockAddress { ip: IpAddress::V4(ip), port }
}

fn v6(ip: u128, port: u16) -> SockAddress {
    SockAddress { ip: IpAddress::V6(ip), port }
}

#[test]
fn v4_datagram_layout() {
    let src = v4(0x0A000005, 7000);
    let dst = v4(0x7F000001, 12001);
    let payload = b"hello";
    let d = build_custom_packet(&src, &dst, payload).unwrap();
    assert_eq!(d.len(), 28 + payload.len());
    // IPv4 version and header length
    assert_eq!(d[0], 0x45);
    // TTL 32, protocol UDP
    assert_eq!(d[8], 32);
    assert_eq!(d[9], 17);
    // spoofed source and real destination
    assert_eq!(&d[12..16], &[10, 0, 0, 5]);
    assert_eq!(&d[16..20], &[127, 0, 0, 1]);
    // UDP source port 6666, destination port 12001
    assert_eq!(&d[20..22], &6666u16.to_be_bytes());
    assert_eq!(&d[22..24], &12001u16.to_be_bytes());
    // UDP length covers header and payload
    assert_eq!(&d[24..26], &((8 + payload.len()) as u16).to_be_bytes());
    // the payload rides at the tail unchanged
    assert_eq!(&d[28..], payload);
}

#[test]
fn v6_datagram_layout() {
    let src = v6(0x2001_0db8_0000_0000_0000_0000_0000_0001, 7000);
    let dst = v6(0x2001_0db8_0000_0000_0000_0000_0000_0002, 12000);
    let payload = b"six";
    let d = build_custom_packet(&src, &dst, payload).unwrap();
    assert_eq!(d.len(), 48 + payload.len());
    // version 6
    assert_eq!(d[0] >> 4, 6);
    // next header UDP, hop limit 64
    assert_eq!(d[6], 17);
    assert_eq!(d[7], 64);
    assert_eq!(&d[8..24], &0x2001_0db8_0000_0000_0000_0000_0000_0001u128.to_be_bytes());
    assert_eq!(&d[24..40], &0x2001_0db8_0000_0000_0000_0000_0000_0002u128.to_be_bytes());
    assert_eq!(&d[40..42], &6666u16.to_be_bytes());
    assert_eq!(&d[42..44], &12000u16.to_be_bytes());
    assert_eq!(&d[48..], payload);
}

#[test]
fn mixed_families_are_refused() {
    let src = v4(0x0A000005, 7000);
    let dst = v6(1, 12000);
    assert_eq!(build_custom_packet(&src, &dst, b"x").unwrap_err(), BuildError::MixedAddressFamilies);
}

#[test]
fn transparent_forwarding_wraps_each_packet() {
    let src = v4(0x0A000005, 7000);
    let backend = v4(0x7F000001, 12000);
    let packet = GelfMessageWrapper::Simple(GelfPacket::new_simple(b"payload".to_vec(), src));
    let out = forward_datagrams(&packet, &backend, true).unwrap();
    assert_eq!(out.len(), 1);
    assert_eq!(out[0].len(), 28 + 7);
    assert_eq!(&out[0][28..], b"payload");
    // non-transparent forwarding leaves the bytes alone
    let plain = forward_datagrams(&packet, &backend, false).unwrap();
    assert_eq!(plain, vec![b"payload".to_vec()]);
}

#[test]
fn transparent_mixed_family_is_refused() {
    let src = v4(0x0A000005, 7000);
    let backend = v6(1, 12000);
    let packet = GelfMessageWrapper::Simple(GelfPacket::new_simple(b"p".to_vec(), src));
    assert_eq!(
        forward_datagrams(&packet, &backend, true).unwrap_err(),
        BuildError::MixedAddressFamilies
    );
}
