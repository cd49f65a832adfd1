use easytier::tunnel::fake_tcp::disguise::{
    extract_data_from_inner, flight_chunks, parse_disguise_mode, unwrap_payload, wrap_payload,
    wrap_payload_with, ClientHandshake, DisguiseError, DisguiseMode, DisguiseStep, ServerHandshake,
};
use easytier::tunnel::fake_tcp::tls_disguise::{
    build_change_cipher_spec, check_hello, client_first_flight, server_answer,
    strip_tls_record_header, wrap_tls_record,
};

#[test]
fn parse_disguise_mode_tls() {
    let hosts = vec!["https://www.google.com".to_string()];
    match parse_disguise_mode(&hosts) {
        DisguiseMode::Tls { host } => assert_eq!(host, "www.google.com"),
        _ => panic!("expected Tls"),
    }
}

#[test]
fn parse_disguise_mode_http() {
    let hosts = vec!["http://example.com".to_string()];
    match parse_disguise_mode(&hosts) {
        DisguiseMode::Http { host } => assert_eq!(host, "example.com"),
        _ => panic!("expected Http"),
    }
}

#[test]
fn parse_disguise_mode_empty() {
    let hosts: Vec<String> = vec![];
    assert!(matches!(parse_disguise_mode(&hosts), DisguiseMode::Off));
}

#[test]
fn wrap_unwrap_tls() {
    let mode = DisguiseMode::Tls {
        host: "test.com".into(),
    };
    let data = b"hello world test data";
    let wrapped = wrap_payload(&mode, data, true);
    let unwrapped = unwrap_payload(&mode, &wrapped).unwrap();
    assert_eq!(unwrapped, data);
}

#[test]
fn wrap_unwrap_tls_large_payload() {
    let mode = DisguiseMode::Tls {
        host: "test.com".into(),
    };
    let data = vec![0xAB; 1000];
    let wrapped = wrap_payload(&mode, &data, true);
    let unwrapped = unwrap_payload(&mode, &wrapped).unwrap();
    assert_eq!(unwrapped, data);
}

#[test]
fn wrap_unwrap_ws_client() {
    let mode = DisguiseMode::Http {
        host: "ws.example.com".into(),
    };
    let data = b"websocket payload data for testing";
    let wrapped = wrap_payload(&mode, data, true);
    let unwrapped = unwrap_payload(&mode, &wrapped).unwrap();
    assert_eq!(unwrapped, data);
}

#[test]
fn wrap_unwrap_ws_server() {
    let mode = DisguiseMode::Http {
        host: "ws.example.com".into(),
    };
    let data = b"server side ws payload";
    let wrapped = wrap_payload(&mode, data, false);
    let unwrapped = unwrap_payload(&mode, &wrapped).unwrap();
    assert_eq!(unwrapped, data);
}

#[test]
fn disguise_off_passthrough() {
    let mode = DisguiseMode::Off;
    let data = b"raw data no disguise";
    let wrapped = wrap_payload(&mode, data, true);
    assert_eq!(wrapped, data);
    let unwrapped = unwrap_payload(&mode, &wrapped).unwrap();
    assert_eq!(unwrapped, data);
}

#[test]
fn wrapped_payload_is_exact() {
    let tls = DisguiseMode::Tls { host: "h".to_string() };
    assert_eq!(wrap_payload_with(&tls, b"ab", None), vec![0x17, 3, 3, 0, 4, 2, 0, b'a', b'b']);
    let http = DisguiseMode::Http { host: "h".to_string() };
    assert_eq!(wrap_payload_with(&http, b"ab", None), vec![0x82, 4, 2, 0, b'a', b'b']);
    assert_eq!(extract_data_from_inner(&[2, 0, 7, 8, 9]), Some(vec![7, 8]));
    assert_eq!(extract_data_from_inner(&[4, 0, 7, 8, 9]), None);
}

#[test]
fn wrapping_stays_within_the_overhead() {
    for mode in [
        DisguiseMode::Off,
        DisguiseMode::Tls { host: "h".to_string() },
        DisguiseMode::Http { host: "h".to_string() },
    ] {
        for len in [0usize, 1, 123, 124, 1300] {
            for client in [true, false] {
                let wrapped = wrap_payload(&mode, &vec![1u8; len], client);
                assert!(wrapped.len() <= len + mode.max_overhead(client));
            }
        }
    }
}

#[test]
fn first_recognised_host_decides() {
    let hosts = vec!["nonsense".to_string(), "https://a.b".to_string(), "http://c".to_string()];
    match parse_disguise_mode(&hosts) {
        DisguiseMode::Off => {}
        DisguiseMode::Tls { host } => assert_eq!(host, "a.b"),
        DisguiseMode::Http { .. } => panic!("expected the first"),
    }
}

#[test]
fn flight_is_cut_into_chunks() {
    let flight: Vec<u8> = (0..3000usize).map(|i| i as u8).collect();
    let chunks = flight_chunks(&flight);
    assert_eq!(chunks.len(), 3);
    assert_eq!(chunks[0].len(), 1400);
    assert_eq!(chunks[2].len(), 200);
    assert_eq!(chunks.concat(), flight);
}

fn client_waits_for_four_records(mut client: ClientHandshake) {
    for i in 0..4 {
        match client.on_receive(&[0x17, 3, 3, 0, 1, 9]) {
            DisguiseStep::Receive => assert!(i < 3),
            DisguiseStep::SendThenDone(bytes) => {
                assert_eq!(i, 3);
                assert_eq!(bytes[0], 0x14);
            }
            other => panic!("{:?}", other),
        }
    }
}

#[test]
fn client_finishes_after_four_records() {
    let mode = DisguiseMode::Tls { host: "h".to_string() };
    let (client, step) = ClientHandshake::start(&mode);
    match step {
        DisguiseStep::SendThenReceive(hello) => assert_eq!(&hello[..3], &[0x16, 3, 1]),
        other => panic!("{:?}", other),
    }
    client_waits_for_four_records(client.unwrap());
}

#[test]
fn disguised_peers_shake_hands() {
    for mode in [DisguiseMode::Tls { host: "h".to_string() }, DisguiseMode::Http { host: "h".to_string() }] {
        let (client, step) = ClientHandshake::start(&mode);
        let mut client = client.unwrap();
        let mut server = ServerHandshake::start(&mode).unwrap();
        let first = match step {
            DisguiseStep::SendThenReceive(bytes) => bytes,
            other => panic!("{:?}", other),
        };
        let (flight, server_done) = match server.on_receive(&first) {
            DisguiseStep::SendThenReceive(bytes) => (bytes, false),
            DisguiseStep::SendThenDone(bytes) => (bytes, true),
            other => panic!("{:?}", other),
        };
        match client.on_receive(&flight) {
            DisguiseStep::SendThenDone(bytes) => {
                assert!(!server_done);
                assert!(matches!(server.on_receive(&bytes), DisguiseStep::Done));
            }
            DisguiseStep::Done => assert!(server_done),
            other => panic!("{:?}", other),
        }
    }
}

#[test]
fn records_are_wrapped_and_recognised() {
    let record = wrap_tls_record(b"abc");
    assert_eq!(record, vec![0x17, 3, 3, 0, 3, b'a', b'b', b'c']);
    assert_eq!(strip_tls_record_header(&record), Some((5, 3)));
    assert_eq!(strip_tls_record_header(&[0x16, 3, 3, 0, 0]), None);
    assert_eq!(build_change_cipher_spec(), vec![0x14, 3, 3, 0, 1, 1]);
}

#[test]
fn hellos_are_checked() {
    let hello = client_first_flight("example.com");
    assert_eq!(hello[0], 0x16);
    assert_eq!(check_hello(&hello, false), Ok(()));
    assert!(check_hello(&[], true).is_err());
    let answer = server_answer(&hello).unwrap();
    assert_eq!(&answer[44..76], &hello[44..76]);
    assert_eq!(server_answer(&[0x15]), Err(DisguiseError::InvalidClientHello));
}
