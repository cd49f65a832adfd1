use base64::Engine;
use base64::prelude::BASE64_STANDARD;
use easytier::locator::UrlParts;
use easytier::tunnel::disguise_protocol::{
    build_http_request, build_http_response, build_tls_client_hello, build_tls_server_hello,
    compute_ws_accept, encode_ws_frame_with,
};
use easytier::tunnel::fakehttp::handshake::{
    accept_for, choose_payload, client_on_response, detect_protocol, parse_payloads,
    response_accepts, server_tls_answer, session_id_of_body, FakeHttpPayload, HandshakeError, Protocol, RequestHead,
};
use easytier::tunnel::fakehttp::send_queue::WriteStep;
use easytier::tunnel::fakehttp::tls_stream::{TlsReadStep, TlsRecordReader, TlsRecordWriter};
use easytier::tunnel::fakehttp::ws_stream::{WsFrameReader, WsFrameWriter, WsPart, WsReadStep};
use easytier::tunnel::protocol::adapters::fakehttp::FakeHttpAdapter;

const GREASE_VALUES: &[u16] = &[
    0x0a0a, 0x1a1a, 0x2a2a, 0x3a3a, 0x4a4a, 0x5a5a, 0x6a6a, 0x7a7a, 0x8a8a, 0x9a9a,
    0xaaaa, 0xbaba, 0xcaca, 0xdada, 0xeaea, 0xfafa,
];

fn is_grease(val: u16) -> bool {
    GREASE_VALUES.contains(&val)
}

fn parse_tls_record(data: &[u8]) -> Option<(u8, [u8; 2], &[u8])> {
    if data.len() < 5 {
        return None;
    }
    let content_type = data[0];
    let version = [data[1], data[2]];
    let length = u16::from_be_bytes([data[3], data[4]]) as usize;
    if data.len() < 5 + length {
        return None;
    }
    Some((content_type, version, &data[5..5 + length]))
}

fn parse_handshake(payload: &[u8]) -> Option<(u8, &[u8])> {
    if payload.len() < 4 {
        return None;
    }
    let hs_type = payload[0];
    let length =
        ((payload[1] as usize) << 16) | ((payload[2] as usize) << 8) | payload[3] as usize;
    if payload.len() < 4 + length {
        return None;
    }
    Some((hs_type, &payload[4..4 + length]))
}

fn find_extension(extensions_data: &[u8], target_type: u16) -> Option<&[u8]> {
    let mut offset = 0;
    while offset + 4 <= extensions_data.len() {
        let ext_type =
            u16::from_be_bytes([extensions_data[offset], extensions_data[offset + 1]]);
        let ext_len = u16::from_be_bytes([
            extensions_data[offset + 2],
            extensions_data[offset + 3],
        ]) as usize;
        if offset + 4 + ext_len > extensions_data.len() {
            break;
        }
        if ext_type == target_type {
            return Some(&extensions_data[offset + 4..offset + 4 + ext_len]);
        }
        offset += 4 + ext_len;
    }
    None
}

fn shannon_entropy(data: &[u8]) -> f64 {
    if data.is_empty() {
        return 0.0;
    }
    let mut freq = [0u64; 256];
    for &b in data {
        freq[b as usize] += 1;
    }
    let len = data.len() as f64;
    freq.iter()
        .filter(|&&c| c > 0)
        .map(|&c| {
            let p = c as f64 / len;
            -p * p.log2()
        })
        .sum()
}

#[allow(dead_code)]
struct ClientHelloFields<'a> {
    version: [u8; 2],
    random: &'a [u8],
    session_id: &'a [u8],
    cipher_suites: Vec<u16>,
    extensions_raw: &'a [u8],
}

fn parse_client_hello(body: &[u8]) -> Option<ClientHelloFields<'_>> {
    if body.len() < 38 {
        return None;
    }
    let version = [body[0], body[1]];
    let random = &body[2..34];
    let sid_len = body[34] as usize;
    if body.len() < 35 + sid_len {
        return None;
    }
    let session_id = &body[35..35 + sid_len];
    let mut offset = 35 + sid_len;

    if offset + 2 > body.len() {
        return None;
    }
    let cs_len = u16::from_be_bytes([body[offset], body[offset + 1]]) as usize;
    offset += 2;
    if offset + cs_len > body.len() {
        return None;
    }
    let mut cipher_suites = Vec::new();
    let cs_data = &body[offset..offset + cs_len];
    for chunk in cs_data.chunks_exact(2) {
        cipher_suites.push(u16::from_be_bytes([chunk[0], chunk[1]]));
    }
    offset += cs_len;

    if offset + 1 > body.len() {
        return None;
    }
    let comp_len = body[offset] as usize;
    offset += 1 + comp_len;

    if offset + 2 > body.len() {
        return None;
    }
    let ext_len = u16::from_be_bytes([body[offset], body[offset + 1]]) as usize;
    offset += 2;
    let extensions_raw = if offset + ext_len <= body.len() {
        &body[offset..offset + ext_len]
    } else {
        &body[offset..]
    };

    Some(ClientHelloFields {
        version,
        random,
        session_id,
        cipher_suites,
        extensions_raw,
    })
}

#[test]
fn test_dpi_tls_record_format() {
    let data = build_tls_client_hello("www.google.com");
    let (ct, ver, payload) = parse_tls_record(&data).expect("valid TLS record");
    assert_eq!(ct, 0x16, "content_type should be Handshake");
    assert_eq!(ver, [0x03, 0x01], "record version should be TLS 1.0");
    let (hs_type, _body) = parse_handshake(payload).expect("valid handshake");
    assert_eq!(hs_type, 0x01, "handshake type should be ClientHello");

    let server_data = build_tls_server_hello(Some(&[0xAA; 32]));
    let (ct, ver, payload) = parse_tls_record(&server_data).expect("valid ServerHello record");
    assert_eq!(ct, 0x16);
    assert_eq!(ver, [0x03, 0x03], "ServerHello record version should be TLS 1.2");
    let (hs_type, _) = parse_handshake(payload).expect("valid handshake");
    assert_eq!(hs_type, 0x02, "handshake type should be ServerHello");
}

#[test]
fn test_dpi_tls_client_hello_fields() {
    let data = build_tls_client_hello("example.com");
    let (_, _, payload) = parse_tls_record(&data).unwrap();
    let (_, body) = parse_handshake(payload).unwrap();
    let ch = parse_client_hello(body).expect("valid ClientHello");

    assert_eq!(ch.version, [0x03, 0x03], "protocol version TLS 1.2");
    assert_eq!(ch.random.len(), 32);
    assert!(ch.random.iter().any(|&b| b != 0), "random should not be all zeros");
    assert_eq!(ch.session_id.len(), 32);
    assert!(ch.session_id.iter().any(|&b| b != 0), "session_id should not be all zeros");
    assert!(
        ch.cipher_suites.iter().any(|&cs| is_grease(cs)),
        "should contain GREASE cipher suite"
    );
    assert!(ch.cipher_suites.contains(&0x1301), "should contain TLS_AES_128_GCM");
    assert!(ch.cipher_suites.contains(&0x1302), "should contain TLS_AES_256_GCM");
    assert!(ch.cipher_suites.contains(&0x1303), "should contain TLS_CHACHA20");
}

#[test]
fn test_dpi_tls_extensions_presence() {
    let host = "www.google.com";
    let data = build_tls_client_hello(host);
    let (_, _, payload) = parse_tls_record(&data).unwrap();
    let (_, body) = parse_handshake(payload).unwrap();
    let ch = parse_client_hello(body).unwrap();
    let ext = ch.extensions_raw;

    let sni = find_extension(ext, 0x0000).expect("should have SNI extension");
    let sni_str = std::str::from_utf8(&sni[5..]).unwrap_or("");
    assert_eq!(sni_str, host, "SNI hostname should match");
    assert!(find_extension(ext, 0x0033).is_some(), "should have key_share");
    assert!(find_extension(ext, 0x002b).is_some(), "should have supported_versions");

    let alpn = find_extension(ext, 0x0010).expect("should have ALPN");
    let alpn_str = String::from_utf8_lossy(alpn);
    assert!(alpn_str.contains("h2"), "ALPN should contain h2");
    assert!(find_extension(ext, 0x0023).is_some(), "should have session_ticket");
    assert!(find_extension(ext, 0x0005).is_some(), "should have status_request");

    let mut has_grease_ext = false;
    let mut offset = 0;
    while offset + 4 <= ext.len() {
        let ext_type = u16::from_be_bytes([ext[offset], ext[offset + 1]]);
        let ext_len = u16::from_be_bytes([ext[offset + 2], ext[offset + 3]]) as usize;
        if is_grease(ext_type) {
            has_grease_ext = true;
            break;
        }
        offset += 4 + ext_len;
    }
    assert!(has_grease_ext, "should have GREASE extension");
}

#[test]
fn test_dpi_tls_hello_length() {
    let data = build_tls_client_hello("www.example.com");
    assert!(data.len() >= 517, "ClientHello record should be >= 517 bytes (got {})", data.len());
    let (_, _, payload) = parse_tls_record(&data).unwrap();
    let (_, body) = parse_handshake(payload).unwrap();
    assert!(body.len() >= 512, "ClientHello body should be >= 512 bytes (got {})", body.len());
}

#[test]
fn client_hello_is_padded_for_every_host() {
    for n in 0..300 {
        let host = "a".repeat(n);
        let data = build_tls_client_hello(&host);
        let (_, _, payload) = parse_tls_record(&data).unwrap();
        let (_, body) = parse_handshake(payload).unwrap();
        assert_eq!(data.len(), body.len() + 9);
        let expected = match n {
            0..=233 => 512,
            234..=236 => 275 + n + 4,
            _ => 275 + n,
        };
        assert_eq!(body.len(), expected, "host of {n} bytes");
        assert!(body.len() >= 512);
        let ch = parse_client_hello(body).expect("valid ClientHello");
        let padding = find_extension(ch.extensions_raw, 0x0015);
        assert_eq!(padding.is_some(), n <= 236);
        if let Some(padding) = padding {
            assert_eq!(padding.len(), 233usize.saturating_sub(n));
            assert!(padding.iter().all(|&b| b == 0));
        }
    }
}

#[test]
fn answer_is_checked_against_the_key() {
    let (_, key) = build_http_request("example.com");
    let answer = build_http_response(&compute_ws_accept(&key));
    assert!(response_accepts(&answer, &key));
    assert!(!response_accepts(&answer, "another key"));
    assert!(!response_accepts(b"", &key));
    let accept = compute_ws_accept(&key);
    assert!(response_accepts(accept.as_bytes(), &key));
    assert!(!response_accepts(&accept.as_bytes()[1..], &key));
}

/// Reads a whole stream in chunks of at most `step` bytes, to its end.
fn read_ws(wire: &[u8], step: usize) -> (Vec<u8>, WsReadStep) {
    let mut reader = WsFrameReader::new();
    let mut got = Vec::new();
    let mut pos = 0;
    loop {
        let next = reader.begin_read(999);
        let (asked, at_once) = match next {
            WsReadStep::ReadHeader(n) | WsReadStep::ReadPayload(n) => (n, false),
            WsReadStep::Drain(n) => (n, true),
            ref other => panic!("{:?}", other),
        };
        let n = if at_once { asked } else { asked.min(step) }.min(wire.len() - pos);
        let chunk = &wire[pos..pos + n];
        pos += n;
        let done = match next {
            WsReadStep::ReadHeader(_) => reader.on_header(chunk),
            WsReadStep::Drain(_) => reader.on_drained(n),
            _ => reader.on_payload(chunk),
        };
        match done {
            WsReadStep::Deliver(bytes) if n > 0 => got.extend_from_slice(&bytes),
            WsReadStep::Continue | WsReadStep::Retry => {}
            end => return (got, end),
        }
    }
}

#[test]
fn websocket_stream_ends_between_frames_or_fails() {
    let mut wire = encode_ws_frame_with(b"first", Some([1, 2, 3, 4]));
    wire.extend(encode_ws_frame_with(b"", None));
    wire.extend([0x89, 2, 7, 7]);
    wire.extend(encode_ws_frame_with(&[9u8; 300], None));
    let whole = wire.len();
    let mut expected = b"first".to_vec();
    expected.extend([9u8; 300]);
    for step in [1, 3, 1000] {
        assert_eq!(read_ws(&wire, step), (expected.clone(), WsReadStep::Deliver(vec![])));
        let (got, end) = read_ws(&wire[..whole - 1], step);
        assert_eq!(got, expected[..304]);
        assert_eq!(end, WsReadStep::Truncated(WsPart::Payload));
        let (got, end) = read_ws(&wire[..whole - 301], step);
        assert_eq!(got, b"first");
        assert_eq!(end, WsReadStep::Truncated(WsPart::Header));
        let (got, end) = read_ws(&wire[..whole - 306], step);
        assert_eq!(got, b"first");
        assert_eq!(end, WsReadStep::Truncated(WsPart::Control));
    }
}

#[test]
fn test_dpi_tls_server_hello_compliance() {
    let client_sid: [u8; 32] = rand::random();
    let server_data = build_tls_server_hello(Some(&client_sid));
    let (_, _, payload) = parse_tls_record(&server_data).unwrap();
    let (_, body) = parse_handshake(payload).unwrap();

    assert!(body.len() > 70, "ServerHello body too short");
    let sid_len = body[34] as usize;
    assert_eq!(sid_len, 32);
    let server_sid = &body[35..35 + sid_len];
    assert_eq!(server_sid, &client_sid, "ServerHello should echo client session_id");

    let offset = 2 + 32 + 1 + sid_len + 2 + 1;
    assert!(body.len() > offset + 2, "ServerHello should have extensions");
    let ext_len = u16::from_be_bytes([body[offset], body[offset + 1]]) as usize;
    assert!(ext_len > 0, "ServerHello extensions should not be empty");

    let ext_data = &body[offset + 2..offset + 2 + ext_len];
    assert!(find_extension(ext_data, 0x002b).is_some(), "should have supported_versions extension");
    assert!(find_extension(ext_data, 0x0033).is_some(), "should have key_share extension");
}

#[test]
fn test_dpi_tls_randomness() {
    let data1 = build_tls_client_hello("example.com");
    let data2 = build_tls_client_hello("example.com");

    let (_, _, p1) = parse_tls_record(&data1).unwrap();
    let (_, _, p2) = parse_tls_record(&data2).unwrap();
    let (_, b1) = parse_handshake(p1).unwrap();
    let (_, b2) = parse_handshake(p2).unwrap();

    assert_ne!(&b1[2..34], &b2[2..34], "random should differ between calls");
    assert_ne!(&b1[35..67], &b2[35..67], "session_id should differ between calls");
}

#[test]
fn test_dpi_tls_entropy() {
    let data = build_tls_client_hello("www.google.com");
    let (_, _, payload) = parse_tls_record(&data).unwrap();
    let (_, body) = parse_handshake(payload).unwrap();

    let random = &body[2..34];
    let entropy = shannon_entropy(random);
    assert!(entropy > 3.5, "random field entropy should be reasonable (got {:.2})", entropy);

    let encrypted: Vec<u8> = (0..1400).map(|_| rand::random::<u8>()).collect();
    let entropy = shannon_entropy(&encrypted);
    assert!(entropy > 7.8, "AES-like random data should have high entropy (got {:.2})", entropy);
}

#[test]
fn test_dpi_http_request_headers() {
    let host = "ws.example.com";
    let (req, ws_key) = build_http_request(host);
    let req_str = String::from_utf8_lossy(&req);

    assert!(req_str.starts_with("GET / HTTP/1.1\r\n"), "should start with GET");
    assert!(req_str.ends_with("\r\n\r\n"), "should end with double CRLF");
    assert!(req_str.contains(&format!("Host: {}", host)), "should have Host header");
    assert!(req_str.contains("Connection: Upgrade"), "should have Connection: Upgrade");
    assert!(req_str.contains("Upgrade: websocket"), "should have Upgrade: websocket");
    assert!(req_str.contains("Sec-WebSocket-Version: 13"), "should have WS version");
    assert!(req_str.contains("Sec-WebSocket-Key: "), "should have WS key");
    assert!(req_str.contains(&format!("Origin: http://{}", host)), "should have Origin");
    assert!(req_str.contains("Sec-WebSocket-Extensions: permessage-deflate"), "should have WS extensions");
    assert!(req_str.contains("Chrome/"), "should have Chrome User-Agent");
    assert!(req_str.contains("Pragma: no-cache"), "should have Pragma");
    assert!(req_str.contains("Cache-Control: no-cache"), "should have Cache-Control");
    assert_eq!(ws_key.len(), 24, "WS key should be 24 chars base64");
    assert!(req_str.contains(&ws_key), "returned key should match request");
}

#[test]
fn test_dpi_http_response_format() {
    let ws_accept = compute_ws_accept("dGhlIHNhbXBsZSBub25jZQ==");
    let resp = build_http_response(&ws_accept);
    let resp_str = String::from_utf8_lossy(&resp);

    assert!(resp_str.starts_with("HTTP/1.1 101 Switching Protocols\r\n"), "should be 101 response");
    assert!(resp_str.ends_with("\r\n\r\n"), "should end with double CRLF");
    assert!(resp_str.contains("Connection: Upgrade"), "should have Connection: Upgrade");
    assert!(resp_str.contains("Upgrade: websocket"), "should have Upgrade: websocket");
    assert!(resp_str.contains(&format!("Sec-WebSocket-Accept: {}", ws_accept)), "should have computed WS Accept");
    assert!(resp_str.contains("Date:"), "should have Date header");
}

#[test]
fn test_ws_accept_roundtrip() {
    let ws_key: [u8; 16] = rand::random();
    let key_b64 = BASE64_STANDARD.encode(ws_key);
    let accept = compute_ws_accept(&key_b64);
    assert!(!accept.is_empty());
    assert_ne!(accept, key_b64);
    assert_eq!(accept, compute_ws_accept(&key_b64));
}

#[test]
fn test_dpi_tls_empty_host() {
    let data = build_tls_client_hello("");
    let (ct, _, _) = parse_tls_record(&data).expect("should produce valid record");
    assert_eq!(ct, 0x16);
}

#[test]
fn test_dpi_tls_long_host() {
    let long_host = "a".repeat(255);
    let data = build_tls_client_hello(&long_host);
    let (ct, _, payload) = parse_tls_record(&data).expect("should produce valid record");
    assert_eq!(ct, 0x16);
    assert!(payload.len() <= 16384, "should not exceed TLS max record");
}

#[test]
fn fakehttp_no_payload_fails() {
    let payloads = parse_payloads(vec!["invalid_entry".to_string()]);
    let err = choose_payload(&payloads, 0).unwrap_err();
    assert!(err.message().contains("no valid fakehttp payload"));
}

#[test]
fn fakehttp_payload_round_robin() {
    let hosts = vec![
        "http://a.example.com".to_string(),
        "https://b.example.com".to_string(),
        "http://c.example.com".to_string(),
    ];
    let payloads = parse_payloads(hosts);
    assert_eq!(payloads.len(), 3);

    let mut counter = 0usize;
    // Verify round-robin cycles
    for round in 0..2 {
        for i in 0..3 {
            let idx = choose_payload(&payloads, counter).unwrap();
            counter += 1;
            assert_eq!(idx, i, "round={round} i={i}");
        }
    }
}

#[test]
fn fakehttp_server_rejects_garbage() {
    // Send garbage that's neither HTTP nor TLS
    let err = detect_protocol(b"\x00\x00\x00\x00").unwrap_err();
    assert!(err.message().contains("unrecognized protocol"));
}

#[test]
fn protocols_are_told_apart() {
    assert!(matches!(detect_protocol(b"GET "), Ok(Protocol::Http)));
    assert!(matches!(detect_protocol(&[0x16, 3, 1, 0]), Ok(Protocol::Tls)));
}

#[test]
fn request_is_answered_by_its_key() {
    let (request, key) = build_http_request("ws.example.com");
    let (mut head, complete) = RequestHead::new(&request[..10]);
    assert!(!complete);
    assert_eq!(head.on_read(&request[10..request.len() - 1]), Ok(false));
    assert_eq!(head.on_read(&request[request.len() - 1..]), Ok(true));
    let answer = String::from_utf8(head.answer()).unwrap();
    assert!(answer.contains(&compute_ws_accept(&key)));
    assert_eq!(accept_for(&request), compute_ws_accept(&key));
    assert_eq!(accept_for(b"GET / HTTP/1.1\r\n\r\n"), "");
}

#[test]
fn response_must_end_and_stay_small() {
    let mut buf = Vec::new();
    assert_eq!(client_on_response(&mut buf, b"HTTP/1.1 101 OK\r\n"), Ok(false));
    assert_eq!(client_on_response(&mut buf, b"\r\n"), Ok(true));
    assert_eq!(client_on_response(&mut Vec::new(), b""), Err(HandshakeError::ServerClosed));
    assert_eq!(
        client_on_response(&mut Vec::new(), &[b'a'; 5000]),
        Err(HandshakeError::ResponseTooLarge)
    );
}

#[test]
fn session_id_comes_back_in_the_answer() {
    let hello = build_tls_client_hello("example.com");
    let (_, _, payload) = parse_tls_record(&hello).unwrap();
    let sid = session_id_of_body(payload).unwrap();
    assert_eq!(sid, &payload[39..71]);
    let answer = server_tls_answer(payload);
    assert_eq!(&answer[44..76], sid);
}

#[test]
fn bytes_written_to_tls_are_read_back() {
    let mut writer = TlsRecordWriter::new();
    let mut reader = TlsRecordReader::new();
    let data: Vec<u8> = (0..20000usize).map(|i| (i * 7) as u8).collect();
    let mut wire = Vec::new();
    let mut at = 0;
    while at < data.len() {
        let mut step = writer.begin_write(&data[at..]);
        loop {
            match step {
                WriteStep::Send => {
                    let n = writer.pending().len().min(1000);
                    wire.extend_from_slice(&writer.pending()[..n]);
                    step = writer.wrote(n);
                }
                WriteStep::Done(n) => {
                    at += n;
                    break;
                }
                WriteStep::WriteZero => panic!("nothing written"),
            }
        }
    }
    let mut got = Vec::new();
    let mut pos = 0;
    while got.len() < data.len() {
        let mut step = reader.begin_read(777);
        loop {
            match step {
                TlsReadStep::Deliver(bytes) => {
                    got.extend_from_slice(&bytes);
                    break;
                }
                TlsReadStep::ReadRecord(n) => {
                    let n = n.min(wire.len() - pos).min(500);
                    let chunk = wire[pos..pos + n].to_vec();
                    pos += n;
                    step = reader.on_record(&chunk);
                }
                TlsReadStep::ReadRaw => {
                    let n = 4096.min(wire.len() - pos);
                    let chunk = wire[pos..pos + n].to_vec();
                    pos += n;
                    step = reader.on_raw(&chunk, 777);
                }
                TlsReadStep::ReadRest(n) => {
                    let n = n.min(wire.len() - pos);
                    let chunk = wire[pos..pos + n].to_vec();
                    pos += n;
                    step = reader.on_rest(&chunk);
                }
                TlsReadStep::Retry => break,
                other => panic!("{:?}", other),
            }
        }
    }
    assert_eq!(got, data);
}

#[test]
fn bytes_written_to_websocket_are_read_back() {
    for client in [true, false] {
        let mut writer = WsFrameWriter::new(client);
        let mut reader = WsFrameReader::new();
        let data: Vec<u8> = (0..70000usize).map(|i| (i * 13) as u8).collect();
        let mut wire = vec![0x89, 3, b'a', b'b', b'c'];
        let mut at = 0;
        while at < data.len() {
            let mut step = writer.begin_write(&data[at..]);
            loop {
                match step {
                    WriteStep::Send => {
                        let n = writer.pending().len();
                        wire.extend_from_slice(writer.pending());
                        step = writer.wrote(n);
                    }
                    WriteStep::Done(n) => {
                        at += n;
                        break;
                    }
                    WriteStep::WriteZero => panic!("nothing written"),
                }
            }
        }
        let mut got = Vec::new();
        let mut pos = 0;
        while got.len() < data.len() {
            let mut step = reader.begin_read(999);
            loop {
                match step {
                    WsReadStep::Deliver(bytes) => {
                        got.extend_from_slice(&bytes);
                        break;
                    }
                    WsReadStep::ReadHeader(n) => {
                        let chunk = wire[pos..pos + n].to_vec();
                        pos += n;
                        step = reader.on_header(&chunk);
                    }
                    WsReadStep::Drain(n) => {
                        pos += n;
                        step = reader.on_drained(n);
                    }
                    WsReadStep::ReadPayload(n) => {
                        let chunk = wire[pos..pos + n].to_vec();
                        pos += n;
                        step = reader.on_payload(&chunk);
                    }
                    WsReadStep::Continue | WsReadStep::Retry => break,
                    other => panic!("{:?}", other),
                }
            }
        }
        assert_eq!(got, data);
    }
}

#[test]
fn adapter_reads_the_url() {
    let adapter = FakeHttpAdapter::new();
    assert!(adapter.is_scheme_supported("fakehttp"));
    assert!(!adapter.is_scheme_supported("http"));
    assert_eq!(adapter.connect_timeout("fakehttp"), Some(8));
    assert_eq!(adapter.max_pending_tcp_upgrades("fakehttp"), Some(1));
    assert_eq!(adapter.max_pending_tcp_upgrades("tcp"), None);
    let url = UrlParts { host: Some("h".to_string()), port: Some(443) };
    assert!(matches!(FakeHttpAdapter::payload_for_url(&url), FakeHttpPayload::Https { host } if host == "h"));
    let url = UrlParts { host: None, port: None };
    assert!(matches!(FakeHttpAdapter::payload_for_url(&url), FakeHttpPayload::Http { host } if host.is_empty()));
}
