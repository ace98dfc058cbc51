use gelflb::balancer::{counts_as_message, dispatch, forward_datagrams, select_backend, DispatchOutcome};
use gelflb::configuration::Configuration;
use gelflb::gelf::GelfMessageWrapper;
use gelflb::net::{IpAddress, SockAddress};
use gelflb::receiver::receiver_step;
use gelflb::state::State;
use gelflb::supervisor::{rate_delta, supervisor_evict};

fn addr(ip: u32, port: u16) -> SockAddress {
    SockAddress { ip: IpAddress::V4(ip), port }
}

fn backends() -> Vec<SockAddress> {
    // B0 = 127.0.0.1:12000, B1 = 127.0.0.1:12001
    vec![addr(0x7f000001, 12000), addr(0x7f000001, 12001)]
}

fn passthrough_config() -> Configuration {
    let mut c = Configuration::default();
    c.transparent = false;
    c
}

fn chunk_datagram(id: u64, seq_no: u8, total: u8, payload: &[u8]) -> Vec<u8> {
    let mut d = vec![0x1e, 0x0f];
    d.extend_from_slice(&id.to_be_bytes());
    d.push(seq_no);
    d.push(total);
    d.extend_from_slice(payload);
    d
}

fn receive(state: &mut State, data: &[u8], src: SockAddress) -> GelfMessageWrapper {
    receiver_step(state, &Vec::new(), data.to_vec(), src, 0).expect("no allow-list configured")
}

#[test]
fn single_simple_message_no_mutation() {
    let config = passthrough_config();
    let mut state = State::new(config.massage_required());
    assert!(!state.otf_massage_required);
    let input = b"{\"version\":\"1.1\",\"host\":\"h\",\"short_message\":\"hi\"}";
    let w = receive(&mut state, input, addr(0x0A000001, 7000));
    match dispatch(&mut state, &config, &backends(), w, 0, 0) {
        DispatchOutcome::Forward { backend_index, packet, counted } => {
            assert_eq!(backend_index, 0);
            assert!(counted);
            let datagrams = forward_datagrams(&packet, &backends()[backend_index], false).unwrap();
            assert_eq!(datagrams.len(), 1);
            assert_eq!(datagrams[0], input.to_vec());
        },
        _ => panic!("a simple message must be forwarded"),
    }
}

#[test]
fn round_robin_alternates_backends() {
    let config = passthrough_config();
    let mut state = State::new(config.massage_required());
    let mut seen = Vec::new();
    for _ in 0..3 {
        let w = receive(&mut state, b"{\"v\":1}", addr(0x0A000001, 7000));
        match dispatch(&mut state, &config, &backends(), w, 0, 0) {
            DispatchOutcome::Forward { backend_index, .. } => seen.push(backend_index),
            _ => panic!("simple messages must be forwarded"),
        }
    }
    assert_eq!(seen, vec![0, 1, 0]);
}

#[test]
fn chunked_passthrough_low_id_goes_to_first_backend() {
    // id 0: with two backends, segment = 127, index = 0
    let config = passthrough_config();
    let mut state = State::new(config.massage_required());
    let src = addr(0x0A000001, 7000);
    let mut counted_total = 0;
    for seq_no in 0..3u8 {
        let data = chunk_datagram(0, seq_no, 3, &[seq_no + 1; 10]);
        let w = receive(&mut state, &data, src);
        match dispatch(&mut state, &config, &backends(), w, 0, 0) {
            DispatchOutcome::Forward { backend_index, packet, counted } => {
                assert_eq!(backend_index, 0);
                let datagrams =
                    forward_datagrams(&packet, &backends()[backend_index], false).unwrap();
                assert_eq!(datagrams, vec![data.clone()]);
                if counted {
                    counted_total += 1;
                }
            },
            _ => panic!("without mutation chunks pass through one by one"),
        }
    }
    // the three datagrams of one logical message count once
    assert_eq!(counted_total, 1);
}

#[test]
fn chunked_passthrough_high_id_goes_to_second_backend() {
    // id with low byte 200: index = 200 / 127 = 1, clamped to 1
    let config = passthrough_config();
    let mut state = State::new(config.massage_required());
    let src = addr(0x0A000001, 7000);
    for seq_no in 0..3u8 {
        let data = chunk_datagram(200, seq_no, 3, b"abcdefghij");
        let w = receive(&mut state, &data, src);
        match dispatch(&mut state, &config, &backends(), w, 0, 0) {
            DispatchOutcome::Forward { backend_index, .. } => assert_eq!(backend_index, 1),
            _ => panic!("without mutation chunks pass through one by one"),
        }
    }
}

#[test]
fn select_backend_is_deterministic() {
    let b = backends();
    for id in [0u64, 1, 126, 127, 200, 255, u64::MAX] {
        assert_eq!(select_backend(&b, id), select_backend(&b, id));
    }
    assert_eq!(select_backend(&b, 0), 0);
    assert_eq!(select_backend(&b, 126), 0);
    assert_eq!(select_backend(&b, 127), 1);
    assert_eq!(select_backend(&b, 200), 1);
    assert_eq!(select_backend(&b, u64::MAX), 1);
}

#[test]
fn mutation_with_source_info_attach() {
    let mut config = Configuration::default();
    config.transparent = false;
    config.attach_source_info = true;
    config.use_gzip = Some(false);
    let mut state = State::new(config.massage_required());
    assert!(state.otf_massage_required);
    let src = addr(0x0A000005, 7000);
    let body = b"{\"version\":\"1.1\",\"host\":\"h\",\"short_message\":\"x\"}";
    let half = body.len() / 2;
    let id = 0x474C_4200_0000_0042u64;
    let c0 = chunk_datagram(id, 0, 2, &body[..half]);
    let c1 = chunk_datagram(id, 1, 2, &body[half..]);

    let w0 = receive(&mut state, &c0, src);
    match dispatch(&mut state, &config, &backends(), w0, 0, 0) {
        DispatchOutcome::Stored => (),
        _ => panic!("the first chunk must wait in the table"),
    }
    assert_eq!(state.chunked_messages.len(), 1);

    let w1 = receive(&mut state, &c1, src);
    match dispatch(&mut state, &config, &backends(), w1, 0, 0) {
        DispatchOutcome::Forward { packet, counted, .. } => {
            assert!(counted);
            // reassemble whatever went out
            let out = match &packet {
                GelfMessageWrapper::Simple(p) => p.data.clone(),
                GelfMessageWrapper::Chunked(c) => {
                    let mut b = Vec::new();
                    for p in &c.chunks {
                        b.extend_from_slice(&p.data[12..]);
                    }
                    b
                },
            };
            let expected = b"{\"version\":\"1.1\",\"host\":\"h\",\"short_message\":\"x\",\"_gelflb_original_source_addr\":\"10.0.0.5\"}";
            assert_eq!(out, expected.to_vec());
        },
        _ => panic!("the completing chunk must release the message"),
    }
    assert_eq!(state.chunked_messages.len(), 0);
}

#[test]
fn mutation_strips_configured_fields() {
    let mut config = Configuration::default();
    config.transparent = false;
    config.strip_fields = vec!["a".to_string()];
    config.use_gzip = Some(false);
    let mut state = State::new(config.massage_required());
    let src = addr(0x0A000005, 7000);
    let body = b"{\"version\":\"1.1\",\"host\":\"h\",\"short_message\":\"x\",\"_a\":1,\"_b\":2}";
    let w = receive(&mut state, body, src);
    match dispatch(&mut state, &config, &backends(), w, 0, 0) {
        DispatchOutcome::Forward { packet, .. } => match &packet {
            GelfMessageWrapper::Simple(p) => {
                let expected =
                    b"{\"version\":\"1.1\",\"host\":\"h\",\"short_message\":\"x\",\"_b\":2}";
                assert_eq!(p.data, expected.to_vec());
            },
            GelfMessageWrapper::Chunked(_) => panic!("small payload must stay one datagram"),
        },
        _ => panic!("a simple message must be forwarded"),
    }
}

#[test]
fn mutation_with_gzip_round_trips() {
    let mut config = Configuration::default();
    config.transparent = false;
    config.attach_source_info = true;
    config.use_gzip = Some(true);
    let mut state = State::new(config.massage_required());
    let src = addr(0x0A000005, 7000);
    // a plain simple message takes the massage path too
    let body = b"{\"version\":\"1.1\",\"host\":\"h\",\"short_message\":\"z\"}";
    let w = receive(&mut state, body, src);
    match dispatch(&mut state, &config, &backends(), w, 0, 0) {
        DispatchOutcome::Forward { packet, .. } => {
            match &packet {
                GelfMessageWrapper::Simple(p) => {
                    // the re-encoded body is compressed
                    assert_eq!(p.data[0], 0x1f);
                    assert_eq!(p.data[1], 0x8b);
                },
                GelfMessageWrapper::Chunked(_) => panic!("small payload must stay one datagram"),
            }
            let m = packet.get_payload().unwrap();
            assert_eq!(m.short_message, b"\"z\"".to_vec());
            assert_eq!(m.additional_fields.len(), 1);
            assert_eq!(m.additional_fields[0].1, b"\"10.0.0.5\"".to_vec());
        },
        _ => panic!("a simple message must be forwarded"),
    }
}

#[test]
fn stale_partial_message_is_evicted() {
    let mut config = Configuration::default();
    config.transparent = false;
    config.attach_source_info = true;
    let mut state = State::new(config.massage_required());
    let src = addr(0x0A000001, 7000);
    let data = chunk_datagram(9, 0, 3, b"partial");
    let w = receiver_step(&mut state, &Vec::new(), data, src, 100).unwrap();
    match dispatch(&mut state, &config, &backends(), w, 100, 0) {
        DispatchOutcome::Stored => (),
        _ => panic!("a lone chunk of three must wait in the table"),
    }
    assert_eq!(state.chunked_messages.len(), 1);
    // too young to evict after 5 seconds
    assert_eq!(supervisor_evict(&mut state, 105, 10), 0);
    assert_eq!(state.chunked_messages.len(), 1);
    // stale after 20 seconds
    assert_eq!(supervisor_evict(&mut state, 120, 10), 1);
    assert_eq!(state.chunked_messages.len(), 0);
    assert!(!state.chunked_messages.has_entry(9));
}

#[test]
fn allow_list_drops_unlisted_sources() {
    let mut state = State::new(false);
    let allowed = vec![IpAddress::V4(0x0A000001)];
    let outsider = addr(0x0A000002, 7000);
    let r = receiver_step(&mut state, &allowed, b"{\"v\":1}".to_vec(), outsider, 0);
    assert!(r.is_none());
    assert_eq!(state.nr_of_handled_udp_packets, 1);
    assert_eq!(state.nr_of_forwarded_messages, 0);
    let insider = addr(0x0A000001, 7000);
    let r = receiver_step(&mut state, &allowed, b"{\"v\":1}".to_vec(), insider, 0);
    assert!(r.is_some());
    assert_eq!(state.nr_of_handled_udp_packets, 2);
}

#[test]
fn counters_only_increase() {
    let mut state = State::new(false);
    let mut last = (0u64, 0u64);
    for _ in 0..5 {
        state.record_handled_packet();
        state.record_forwarded_message();
        let (fwd, handled) = state.counters();
        assert!(fwd >= last.0 && handled >= last.1);
        last = (fwd, handled);
    }
    assert_eq!(last, (5, 5));
}

#[test]
fn counting_rule_per_wrapper_shape() {
    let src = addr(1, 2);
    let mut state = State::new(false);
    let simple = receive(&mut state, b"plain", src);
    assert!(counts_as_message(&simple));
    let first = receive(&mut state, &chunk_datagram(5, 0, 3, b"x"), src);
    assert!(counts_as_message(&first));
    let second = receive(&mut state, &chunk_datagram(5, 1, 3, b"y"), src);
    assert!(!counts_as_message(&second));
}

#[test]
fn rate_delta_is_symmetric_distance() {
    assert_eq!(rate_delta(3, 10), 7);
    assert_eq!(rate_delta(10, 3), 7);
    assert_eq!(rate_delta(4, 4), 0);
}
