use easytier::tunnel::disguise_protocol::{
    build_fake_client_finished, build_fake_server_encrypted_handshake, build_http_request,
    build_http_response, build_http_response_at, build_tls_client_hello, build_tls_server_hello,
    compute_ws_accept, decode_tls_record, decode_ws_frame, encode_tls_record, encode_ws_frame,
    encode_ws_frame_with, extract_ws_key, wrap_tls_handshake, ws_apply_mask, ws_frame_overhead,
};

#[test]
fn tls_record_roundtrip() {
    let data = b"hello world, this is a test payload";
    let encoded = encode_tls_record(data);
    assert_eq!(encoded[0], 0x17);
    assert_eq!(encoded[1], 0x03);
    assert_eq!(encoded[2], 0x03);
    let (consumed, decoded) = decode_tls_record(&encoded).unwrap();
    assert_eq!(consumed, encoded.len());
    assert_eq!(decoded, data);
}

#[test]
fn ws_frame_roundtrip_unmasked() {
    let data = b"test payload for ws frame";
    let encoded = encode_ws_frame(data, false);
    let (consumed, decoded) = decode_ws_frame(&encoded).unwrap();
    assert_eq!(consumed, encoded.len());
    assert_eq!(decoded, data);
}

#[test]
fn ws_frame_roundtrip_masked() {
    let data = b"masked payload for ws frame testing with some extra length";
    let encoded = encode_ws_frame(data, true);
    let (consumed, decoded) = decode_ws_frame(&encoded).unwrap();
    assert_eq!(consumed, encoded.len());
    assert_eq!(decoded, data);
}

#[test]
fn ws_frame_extended_length() {
    let data = vec![0xAB; 300];
    let encoded = encode_ws_frame(&data, true);
    let (consumed, decoded) = decode_ws_frame(&encoded).unwrap();
    assert_eq!(consumed, encoded.len());
    assert_eq!(decoded, data);
}

#[test]
fn tls_client_hello_structure() {
    let hello = build_tls_client_hello("www.example.com");
    assert_eq!(hello[0], 0x16); // Handshake content type
    assert_eq!(hello[1], 0x03);
    assert_eq!(hello[2], 0x01); // TLS 1.0 record version
    // Handshake type ClientHello
    assert_eq!(hello[5], 0x01);
}

#[test]
fn tls_server_hello_structure() {
    let hello = build_tls_server_hello(Some(&[0u8; 32]));
    assert_eq!(hello[0], 0x16); // Handshake content type
    assert_eq!(hello[1], 0x03);
    assert_eq!(hello[2], 0x03); // TLS 1.2 record version
    assert_eq!(hello[5], 0x02); // ServerHello type
}

#[test]
fn ws_accept_computation() {
    let key = "dGhlIHNhbXBsZSBub25jZQ==";
    let accept = compute_ws_accept(key);
    // SHA1("dGhlIHNhbXBsZSBub25jZQ==258EAFA5-E914-47DA-95CA-5AB5DC30CE87") base64
    assert_eq!(accept, "vu2or8FcdSt/9u+gA0rtwZV0Moo=");
}

#[test]
fn decode_incomplete_tls_record() {
    assert_eq!(decode_tls_record(&[0x17, 0x03, 0x03]), None);
    assert_eq!(decode_tls_record(&[0x17, 0x03, 0x03, 0x00, 0x05, 0x01]), None);
}

#[test]
fn decode_incomplete_ws_frame() {
    assert_eq!(decode_ws_frame(&[0x82]), None);
    assert_eq!(decode_ws_frame(&[0x82, 0x05, 0x01]), None);
}

#[test]
fn masking_twice_gives_back() {
    let key = [1, 2, 3, 4];
    let once = ws_apply_mask(b"abcdefgh", &key, 3);
    assert_eq!(once[0], b'a' ^ 4);
    assert_eq!(ws_apply_mask(&once, &key, 3), b"abcdefgh");
}

#[test]
fn masked_frame_is_exact() {
    assert_eq!(
        encode_ws_frame_with(b"Hi", Some([1, 2, 3, 4])),
        vec![0x82, 0x82, 1, 2, 3, 4, b'H' ^ 1, b'i' ^ 2]
    );
    assert_eq!(encode_ws_frame_with(b"Hi", None), vec![0x82, 2, b'H', b'i']);
    assert_eq!(&encode_ws_frame_with(&[7; 300], None)[..4], &[0x82, 126, 1, 44]);
    assert_eq!(&encode_ws_frame_with(&[7; 70000], None)[..10], &[0x82, 127, 0, 0, 0, 0, 0, 1, 17, 112]);
}

#[test]
fn overhead_is_the_header() {
    for (len, client) in [(0, true), (125, false), (126, true), (65535, false), (65536, true)] {
        let frame = encode_ws_frame(&vec![1u8; len], client);
        assert_eq!(frame.len(), len + ws_frame_overhead(len, client));
    }
}

#[test]
fn frame_longer_than_memory_is_incomplete() {
    assert_eq!(decode_ws_frame(&[0x82, 127, 255, 255, 255, 255, 255, 255, 255, 255, 1]), None);
}

#[test]
fn record_header_is_exact() {
    assert_eq!(encode_tls_record(b"abc"), vec![0x17, 3, 3, 0, 3, b'a', b'b', b'c']);
    assert_eq!(wrap_tls_handshake(2, b"xy", [3, 1]), vec![0x16, 3, 1, 0, 6, 2, 0, 0, 2, b'x', b'y']);
}

#[test]
fn server_flight_has_fake_records() {
    let flight = build_fake_server_encrypted_handshake();
    assert_eq!(&flight[..6], &[0x14, 3, 3, 0, 1, 1]);
    assert_eq!(&flight[6..9], &[0x17, 3, 3]);
    let finished = build_fake_client_finished();
    assert_eq!(&finished[..6], &[0x14, 3, 3, 0, 1, 1]);
    assert_eq!(&finished[6..9], &[0x17, 3, 3]);
    assert_eq!(finished.len(), 11 + u16::from_be_bytes([finished[9], finished[10]]) as usize);
}

#[test]
fn request_key_is_extracted_from_the_request() {
    let (request, key) = build_http_request("ws.example.com");
    assert_eq!(extract_ws_key(&request), Some(key.as_str()));
    assert_eq!(extract_ws_key(b"GET / HTTP/1.1\r\nsec-websocket-key:  abc \r\n\r\n"), Some("abc"));
    assert_eq!(extract_ws_key(b"GET / HTTP/1.1\r\nHost: x\r\n\r\n"), None);
    assert_eq!(extract_ws_key(&[0xff, 0xfe]), None);
}

#[test]
fn response_is_exact_at_a_date() {
    let text = String::from_utf8(build_http_response_at("ACCEPT", "Sun, 06 Nov 1994 08:49:37 GMT")).unwrap();
    assert!(text.contains("Date: Sun, 06 Nov 1994 08:49:37 GMT\r\n"));
    assert!(text.contains("Sec-WebSocket-Accept: ACCEPT\r\n"));
    let now = String::from_utf8(build_http_response("ACCEPT")).unwrap();
    let date = now.split("Date: ").nth(1).unwrap().split("\r\n").next().unwrap();
    assert!(date.ends_with(" GMT"));
    assert_eq!(date.len(), 29);
}
