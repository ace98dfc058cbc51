use gelflb::gelf::{
    calculate_packet_sizes, create_packets, generate_message_id, parse_chunk_info, u64_be_bytes,
    GelfPacket,
};
use gelflb::net::{ip_text, IpAddress, SockAddress};

fn addr(ip: u32, port: u16) -> SockAddress {
    SockAddress { ip: IpAddress::V4(ip), port }
}

fn chunk_datagram(id: u64, seq_no: u8, total: u8, payload: &[u8]) -> Vec<u8> {
    let mut d = vec![0x1e, 0x0f];
    d.extend_from_slice(&id.to_be_bytes());
    d.push(seq_no);
    d.push(total);
    d.extend_from_slice(payload);
    d
}

#[test]
fn parse_chunk_info_reads_header_fields() {
    let d = chunk_datagram(0x0102030405060708, 2, 3, b"abc");
    assert_eq!(parse_chunk_info(&d), (0x0102030405060708, 2, 3));
}

#[test]
fn parse_chunk_info_short_datagram_is_zero() {
    // carries the magic but no full header: fields read as zero
    let d = vec![0x1e, 0x0f, 1, 2, 3];
    assert_eq!(parse_chunk_info(&d), (0, 0, 0));
}

#[test]
fn parse_chunk_info_wrong_magic_is_zero() {
    let d = chunk_datagram(7, 0, 1, b"xyz");
    let mut e = d.clone();
    e[0] = 0x7b;
    assert_eq!(parse_chunk_info(&e), (0, 0, 0));
}

#[test]
fn u64_be_bytes_matches_std() {
    let x = 0x1122334455667788u64;
    assert_eq!(u64_be_bytes(x), x.to_be_bytes().to_vec());
    assert_eq!(u64_be_bytes(0), vec![0u8; 8]);
}

#[test]
fn message_id_has_glb_prefix_and_clock_bytes() {
    let id = generate_message_id(0x0102030405);
    assert_eq!(id, 0x474C_4205_0403_0201);
}

#[test]
fn message_id_zero_clock() {
    assert_eq!(generate_message_id(0), 0x474C_4200_0000_0000);
}

#[test]
fn packet_sizes_with_remainder() {
    let (n, sizes) = calculate_packet_sizes(10, 4);
    assert_eq!(n, 3);
    assert_eq!(sizes, vec![4, 4, 2]);
}

#[test]
fn packet_sizes_exact_multiple() {
    let (n, sizes) = calculate_packet_sizes(8, 4);
    assert_eq!(n, 2);
    assert_eq!(sizes, vec![4, 4]);
}

#[test]
fn packet_sizes_empty_payload() {
    let (n, sizes) = calculate_packet_sizes(0, 4);
    assert_eq!(n, 0);
    assert!(sizes.is_empty());
}

#[test]
fn create_packets_emits_headers_and_fragments() {
    let data: Vec<u8> = (0u8..10).collect();
    let (_, sizes) = calculate_packet_sizes(data.len(), 4);
    let id = 0x474C_4200_0000_0001u64;
    let packets = create_packets(&data, &sizes, id);
    assert_eq!(packets.len(), 3);
    let expected1 = chunk_datagram(id, 1, 3, &data[4..8]);
    assert_eq!(packets[1], expected1);
    // every packet parses back to its own header triple
    for (i, p) in packets.iter().enumerate() {
        assert_eq!(parse_chunk_info(p), (id, i as u8, 3));
    }
    // the fragments concatenate back to the payload
    let mut body = Vec::new();
    for p in &packets {
        body.extend_from_slice(&p[12..]);
    }
    assert_eq!(body, data);
}

#[test]
fn packet_is_chunked_by_magic() {
    let a = addr(0x7f000001, 9999);
    let chunked = GelfPacket::new_chunked(chunk_datagram(1, 0, 2, b"x"), 1, 0, 2, a);
    assert!(chunked.is_chunked());
    let simple = GelfPacket::new_simple(b"{\"version\":\"1.1\"}".to_vec(), a);
    assert!(!simple.is_chunked());
}

#[test]
fn ip_text_v4() {
    assert_eq!(ip_text(&IpAddress::V4(0x0A000005)), b"10.0.0.5".to_vec());
    assert_eq!(ip_text(&IpAddress::V4(0xFFFFFFFF)), b"255.255.255.255".to_vec());
}

#[test]
fn ip_text_v6() {
    let v = 0x2001_0db8_0000_0000_0000_0000_0000_0001u128;
    assert_eq!(ip_text(&IpAddress::V6(v)), b"2001:db8:0:0:0:0:0:1".to_vec());
}
