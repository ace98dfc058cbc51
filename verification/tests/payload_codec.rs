use gelflb::configuration::Configuration;
use gelflb::gelf::{GelfChunkedMessage, GelfMessageWrapper, GelfPacket};
use gelflb::mutate::{attach_source_info, blank_fields_apply, strip_fields_apply};
use gelflb::net::{IpAddress, SockAddress};
use gelflb::payload::{encode_payload, DecodeError, GelfMessage};

fn addr(ip: u32, port: u16) -> SockAddress {
    SockAddress { ip: IpAddress::V4(ip), port }
}

fn simple_wrapper(body: &[u8]) -> GelfMessageWrapper {
    GelfMessageWrapper::Simple(GelfPacket::new_simple(body.to_vec(), addr(0x0A000005, 4321)))
}

#[test]
fn decode_simple_record() {
    let w = simple_wrapper(b"{\"version\":\"1.1\",\"host\":\"h\",\"short_message\":\"hi\"}");
    let m = w.get_payload().unwrap();
    assert_eq!(m.version, b"\"1.1\"".to_vec());
    assert_eq!(m.host, b"\"h\"".to_vec());
    assert_eq!(m.short_message, b"\"hi\"".to_vec());
    assert!(m.full_message.is_none());
    assert!(m.level.is_none());
    assert!(m.line.is_none());
    assert!(m.additional_fields.is_empty());
}

#[test]
fn decode_keeps_additional_fields() {
    let w = simple_wrapper(
        b"{\"version\":\"1.1\",\"host\":\"h\",\"short_message\":\"hi\",\"_req\":\"a\",\"_n\":5}",
    );
    let m = w.get_payload().unwrap();
    assert_eq!(m.additional_fields.len(), 2);
    // serde_json's map hands members out sorted by name
    assert_eq!(m.additional_fields[0].0, b"_n".to_vec());
    assert_eq!(m.additional_fields[0].1, b"5".to_vec());
    assert_eq!(m.additional_fields[1].0, b"_req".to_vec());
    assert_eq!(m.additional_fields[1].1, b"\"a\"".to_vec());
}

#[test]
fn decode_level_number() {
    let w = simple_wrapper(b"{\"version\":\"1.1\",\"host\":\"h\",\"short_message\":\"m\",\"level\":6}");
    assert_eq!(w.get_payload().unwrap().level, Some(6));
}

#[test]
fn decode_level_wrong_type_is_refused() {
    let w =
        simple_wrapper(b"{\"version\":\"1.1\",\"host\":\"h\",\"short_message\":\"m\",\"level\":\"x\"}");
    assert_eq!(w.get_payload().unwrap_err(), DecodeError::BadFieldValue);
}

#[test]
fn decode_level_too_large_is_refused() {
    let w =
        simple_wrapper(b"{\"version\":\"1.1\",\"host\":\"h\",\"short_message\":\"m\",\"level\":300}");
    assert_eq!(w.get_payload().unwrap_err(), DecodeError::BadFieldValue);
}

#[test]
fn decode_line_number_becomes_string() {
    let w = simple_wrapper(b"{\"version\":\"1.1\",\"host\":\"h\",\"short_message\":\"m\",\"line\":42}");
    assert_eq!(w.get_payload().unwrap().line, Some(b"\"42\"".to_vec()));
}

#[test]
fn decode_line_string_stays() {
    let w =
        simple_wrapper(b"{\"version\":\"1.1\",\"host\":\"h\",\"short_message\":\"m\",\"line\":\"7a\"}");
    assert_eq!(w.get_payload().unwrap().line, Some(b"\"7a\"".to_vec()));
}

#[test]
fn decode_missing_required_field() {
    let w = simple_wrapper(b"{\"host\":\"h\",\"short_message\":\"m\"}");
    assert_eq!(w.get_payload().unwrap_err(), DecodeError::MissingRequiredField);
}

#[test]
fn decode_gzip_garbage_is_refused() {
    // carries the GZip magic but is no GZip stream
    let w = simple_wrapper(&[0x1f, 0x8b, 0, 0, 0, 0]);
    assert_eq!(w.get_payload().unwrap_err(), DecodeError::GzipFailed);
}

#[test]
fn decode_not_json_is_refused() {
    let w = simple_wrapper(b"hello there");
    assert_eq!(w.get_payload().unwrap_err(), DecodeError::BodyNotJson);
}

#[test]
fn decode_short_chunk_is_refused() {
    let p = GelfPacket::new_chunked(vec![0x1e, 0x0f, 1, 2, 3], 0, 0, 1, addr(1, 2));
    let w = GelfMessageWrapper::Chunked(GelfChunkedMessage::new(p, 0));
    assert_eq!(w.get_payload().unwrap_err(), DecodeError::ShortChunk);
}

#[test]
fn encode_omits_absent_optionals() {
    let w = simple_wrapper(b"{\"version\":\"1.1\",\"host\":\"h\",\"short_message\":\"hi\"}");
    let m = w.get_payload().unwrap();
    let out = encode_payload(&m);
    assert_eq!(out, b"{\"version\":\"1.1\",\"host\":\"h\",\"short_message\":\"hi\"}".to_vec());
}

#[test]
fn encode_emits_level_and_line() {
    let w = simple_wrapper(
        b"{\"version\":\"1.1\",\"host\":\"h\",\"short_message\":\"m\",\"level\":6,\"line\":42}",
    );
    let m = w.get_payload().unwrap();
    let out = encode_payload(&m);
    assert_eq!(
        out,
        b"{\"version\":\"1.1\",\"host\":\"h\",\"short_message\":\"m\",\"level\":6,\"line\":\"42\"}"
            .to_vec()
    );
}

#[test]
fn set_payload_gzip_round_trips() {
    let mut w = simple_wrapper(b"{\"version\":\"1.1\",\"host\":\"h\",\"short_message\":\"zip\"}");
    let m = w.get_payload().unwrap();
    let mut config = Configuration::default();
    config.use_gzip = Some(true);
    w.set_payload(&m, &config, 100, 5).unwrap();
    match &w {
        GelfMessageWrapper::Simple(p) => {
            // the stored body is compressed now
            assert_eq!(p.data[0], 0x1f);
            assert_eq!(p.data[1], 0x8b);
        },
        GelfMessageWrapper::Chunked(_) => panic!("small payload must stay a single datagram"),
    }
    let back = w.get_payload().unwrap();
    assert_eq!(back.version, m.version);
    assert_eq!(back.host, m.host);
    assert_eq!(back.short_message, m.short_message);
}

#[test]
fn set_payload_chunks_large_payloads() {
    let big = format!(
        "{{\"version\":\"1.1\",\"host\":\"h\",\"short_message\":\"{}\"}}",
        "a".repeat(4000)
    );
    let mut w = simple_wrapper(big.as_bytes());
    let m = w.get_payload().unwrap();
    let mut config = Configuration::default();
    config.use_gzip = None;
    config.chunk_size = 1024;
    w.set_payload(&m, &config, 100, 5).unwrap();
    match &w {
        GelfMessageWrapper::Chunked(c) => {
            assert!(c.chunks.len() > 1);
            assert_eq!(c.expected_max_chunks, c.chunks.len());
            // reassembly gives back the encoded payload
            let mut body = Vec::new();
            for p in &c.chunks {
                assert!(p.data.len() <= 1024 - 68);
                body.extend_from_slice(&p.data[12..]);
            }
            assert_eq!(body, encode_payload(&m));
            // every chunk keeps the series id and the sender
            for (i, p) in c.chunks.iter().enumerate() {
                assert_eq!(p.message_id, c.id);
                assert_eq!(p.sequence_number, i as u8);
                assert_eq!(p.total_chunks, c.chunks.len() as u8);
            }
        },
        GelfMessageWrapper::Simple(_) => panic!("large payload must be chunked"),
    }
}

#[test]
fn attach_source_info_adds_field_once() {
    let w = simple_wrapper(b"{\"version\":\"1.1\",\"host\":\"h\",\"short_message\":\"x\"}");
    let mut m = w.get_payload().unwrap();
    attach_source_info(&mut m, &b"10.0.0.5".to_vec());
    assert_eq!(m.additional_fields.len(), 1);
    assert_eq!(m.additional_fields[0].0, b"_gelflb_original_source_addr".to_vec());
    assert_eq!(m.additional_fields[0].1, b"\"10.0.0.5\"".to_vec());
    attach_source_info(&mut m, &b"10.9.9.9".to_vec());
    assert_eq!(m.additional_fields.len(), 1);
    assert_eq!(m.additional_fields[0].1, b"\"10.0.0.5\"".to_vec());
}

#[test]
fn strip_fields_removes_named_fields() {
    let w = simple_wrapper(
        b"{\"version\":\"1.1\",\"host\":\"h\",\"short_message\":\"x\",\"_a\":1,\"_b\":2}",
    );
    let mut m = w.get_payload().unwrap();
    // the entry "a" names the field "_a", as with blanking
    strip_fields_apply(&mut m, &vec!["a".to_string()]);
    assert_eq!(m.additional_fields.len(), 1);
    assert_eq!(m.additional_fields[0].0, b"_b".to_vec());
}

#[test]
fn blank_fields_masks_string_values_only() {
    let w = simple_wrapper(
        b"{\"version\":\"1.1\",\"host\":\"h\",\"short_message\":\"x\",\"_pw\":\"s3cret\",\"_n\":7}",
    );
    let mut m = w.get_payload().unwrap();
    blank_fields_apply(&mut m, &vec!["pw".to_string(), "n".to_string()]);
    assert_eq!(m.additional_fields[0].0, b"_n".to_vec());
    assert_eq!(m.additional_fields[0].1, b"7".to_vec());
    assert_eq!(m.additional_fields[1].0, b"_pw".to_vec());
    assert_eq!(m.additional_fields[1].1, b"\"******\"".to_vec());
}

#[test]
fn encode_escapes_additional_field_names() {
    let mut m = GelfMessage {
        version: b"\"1.1\"".to_vec(),
        host: b"\"h\"".to_vec(),
        short_message: b"\"x\"".to_vec(),
        full_message: None,
        timestamp: None,
        level: None,
        facility: None,
        file: None,
        line: None,
        additional_fields: Vec::new(),
    };
    m.additional_fields.push((b"_a\"b".to_vec(), b"1".to_vec()));
    let out = encode_payload(&m);
    assert_eq!(
        out,
        b"{\"version\":\"1.1\",\"host\":\"h\",\"short_message\":\"x\",\"_a\\\"b\":1}".to_vec()
    );
}
