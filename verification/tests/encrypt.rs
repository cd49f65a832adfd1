use easytier::peers::encrypt::{create_encryptor, Encryptor, Error, NullCipher};
use easytier::tunnel::packet_def::{PacketType, ZCPacket};

#[test]
fn padded_encryptor_roundtrip() {
    let encryptor = create_encryptor("aes-gcm", [1u8; 16], [1u8; 32], 128);
    let text = b"hello padded world";
    let mut pkt = ZCPacket::new_with_payload(text);
    pkt.fill_peer_manager_hdr(10, 20, PacketType::Data.number());

    encryptor.encrypt(&mut pkt).unwrap();
    assert_ne!(pkt.payload(), text);
    assert!(pkt.peer_manager_header().unwrap().is_encrypted());

    encryptor.decrypt(&mut pkt).unwrap();
    assert_eq!(pkt.payload(), text);
    assert!(!pkt.peer_manager_header().unwrap().is_encrypted());
}

#[test]
fn padded_encryptor_ciphertext_varies_due_to_padding() {
    let encryptor = create_encryptor("aes-gcm", [3u8; 16], [3u8; 32], 128);
    let text = b"same payload";

    let mut sizes = std::collections::HashSet::new();
    for _ in 0..50 {
        let mut pkt = ZCPacket::new_with_payload(text);
        pkt.fill_peer_manager_hdr(10, 20, PacketType::Data.number());
        encryptor.encrypt(&mut pkt).unwrap();
        sizes.insert(pkt.payload().len());
    }
    // With padding_max=128, different encryptions should produce different sizes
    assert!(sizes.len() > 1, "ciphertext sizes should vary: {:?}", sizes);
}

#[test]
fn padded_encryptor_zero_padding_passthrough() {
    let encryptor = create_encryptor("aes-gcm", [4u8; 16], [4u8; 32], 0);
    let text = b"no padding here";

    let mut pkt = ZCPacket::new_with_payload(text);
    pkt.fill_peer_manager_hdr(10, 20, PacketType::Data.number());

    encryptor.encrypt(&mut pkt).unwrap();
    encryptor.decrypt(&mut pkt).unwrap();
    assert_eq!(pkt.payload(), text);
}

#[test]
fn padded_encryptor_cross_instance_decrypt() {
    // Simulate two peers with the same key and padding_max
    let enc_a = create_encryptor("aes-gcm", [7u8; 16], [7u8; 32], 128);
    let enc_b = create_encryptor("aes-gcm", [7u8; 16], [7u8; 32], 128);

    let text = b"cross instance data";
    let nonce = [11u8; 12];

    let mut pkt = ZCPacket::new_with_payload(text);
    pkt.fill_peer_manager_hdr(10, 20, PacketType::Data.number());

    // A encrypts with fixed nonce, B decrypts
    enc_a.encrypt_with_nonce(&mut pkt, Some(&nonce)).unwrap();
    enc_b.decrypt(&mut pkt).unwrap();
    assert_eq!(pkt.payload(), text);
}

#[test]
fn padded_encryptor_mismatched_padding_max_fails() {
    // Peer A uses padding_max=128, Peer B uses padding_max=0 (no PaddedEncryptor)
    // B cannot decode A's padding after decrypt
    let enc_a = create_encryptor("aes-gcm", [8u8; 16], [8u8; 32], 128);
    let enc_b_raw = create_encryptor("aes-gcm", [8u8; 16], [8u8; 32], 0);

    let text = b"will B decode this?";
    let nonce = [12u8; 12];

    let mut pkt = ZCPacket::new_with_payload(text);
    pkt.fill_peer_manager_hdr(10, 20, PacketType::Data.number());

    enc_a.encrypt_with_nonce(&mut pkt, Some(&nonce)).unwrap();
    // B decrypts successfully (AEAD is fine) but doesn't remove padding
    enc_b_raw.decrypt(&mut pkt).unwrap();
    // Payload now contains: [original_text][random_padding][len_suffix]
    // so it won't match original text
    assert_ne!(pkt.payload(), text);
}

fn packet(text: &[u8]) -> ZCPacket {
    let mut pkt = ZCPacket::new_with_payload(text);
    pkt.fill_peer_manager_hdr(10, 20, PacketType::Data.number());
    pkt
}

#[test]
fn every_algorithm_gives_back() {
    for name in ["xor", "aes-gcm", "aes-gcm-256", "chacha20", "unheard of"] {
        for padding in [0, 64] {
            let e = create_encryptor(name, [5u8; 16], [6u8; 32], padding);
            let mut pkt = packet(b"give me back");
            e.encrypt(&mut pkt).unwrap();
            assert!(pkt.peer_manager_header().unwrap().is_encrypted());
            assert_ne!(pkt.payload(), b"give me back");
            e.decrypt(&mut pkt).unwrap();
            assert_eq!(pkt.payload(), b"give me back");
        }
    }
}

#[test]
fn unknown_algorithm_is_aes_gcm() {
    let a = create_encryptor("unheard of", [5u8; 16], [6u8; 32], 0);
    let b = create_encryptor("aes-gcm", [5u8; 16], [6u8; 32], 0);
    let mut pkt = packet(b"same");
    a.encrypt(&mut pkt).unwrap();
    b.decrypt(&mut pkt).unwrap();
    assert_eq!(pkt.payload(), b"same");
}

#[test]
fn aes_gcm_matches_its_test_vectors() {
    // an all-zero key, nonce and block of 16 bytes
    let e = create_encryptor("aes-gcm", [0u8; 16], [0u8; 32], 0);
    let mut pkt = packet(&[0u8; 16]);
    e.encrypt_with_nonce(&mut pkt, Some(&[0u8; 12])).unwrap();
    let expected: [u8; 32] = [
        0x03, 0x88, 0xda, 0xce, 0x60, 0xb6, 0xa3, 0x92, 0xf3, 0x28, 0xc2, 0xb9, 0x71, 0xb2, 0xfe,
        0x78, 0xab, 0x6e, 0x47, 0xd4, 0x2c, 0xec, 0x13, 0xbd, 0xf5, 0x3a, 0x67, 0xb2, 0x12, 0x57,
        0xbd, 0xdf,
    ];
    assert_eq!(&pkt.payload()[..32], &expected);
    assert_eq!(&pkt.payload()[32..], &[0u8; 12]);

    let e = create_encryptor("aes-gcm-256", [0u8; 16], [0u8; 32], 0);
    let mut pkt = packet(&[0u8; 16]);
    e.encrypt_with_nonce(&mut pkt, Some(&[0u8; 12])).unwrap();
    let expected: [u8; 32] = [
        0xce, 0xa7, 0x40, 0x3d, 0x4d, 0x60, 0x6b, 0x6e, 0x07, 0x4e, 0xc5, 0xd3, 0xba, 0xf3, 0x9d,
        0x18, 0xd0, 0xd1, 0xc8, 0xa7, 0x99, 0x99, 0x6b, 0xf0, 0x26, 0x5b, 0x98, 0xb5, 0xd4, 0x8a,
        0xb9, 0x19,
    ];
    assert_eq!(&pkt.payload()[..32], &expected);
}

#[test]
fn chacha20_matches_its_keystream() {
    // the second block of the keystream for an all-zero key and nonce
    let e = create_encryptor("chacha20", [0u8; 16], [0u8; 32], 0);
    let mut pkt = packet(&[0u8; 16]);
    e.encrypt_with_nonce(&mut pkt, Some(&[0u8; 12])).unwrap();
    let expected: [u8; 16] = [
        0x9f, 0x07, 0xe7, 0xbe, 0x55, 0x51, 0x38, 0x7a, 0x98, 0xba, 0x97, 0x7c, 0x73, 0x2d, 0x08,
        0x0d,
    ];
    assert_eq!(pkt.payload().len(), 44);
    assert_eq!(&pkt.payload()[..16], &expected);
    assert_eq!(&pkt.payload()[32..], &[0u8; 12]);
}

#[test]
fn changed_ciphertext_is_refused() {
    for name in ["aes-gcm", "aes-gcm-256", "chacha20"] {
        let e = create_encryptor(name, [5u8; 16], [6u8; 32], 0);
        let mut pkt = packet(b"do not touch");
        e.encrypt(&mut pkt).unwrap();
        let at = pkt.buf_len() - 30;
        pkt.mut_inner()[at] ^= 1;
        assert_eq!(e.decrypt(&mut pkt), Err(Error::DecryptionFailed));
    }
}

#[test]
fn short_ciphertext_is_refused() {
    let e = create_encryptor("aes-gcm", [5u8; 16], [6u8; 32], 0);
    let mut pkt = packet(&[1u8; 27]);
    pkt.set_encrypted(true);
    assert_eq!(e.decrypt(&mut pkt), Err(Error::PacketTooShort(27)));
}

#[test]
fn wrong_nonce_length_is_refused() {
    let e = create_encryptor("aes-gcm", [5u8; 16], [6u8; 32], 0);
    let mut pkt = packet(b"text");
    assert_eq!(e.encrypt_with_nonce(&mut pkt, Some(&[1u8; 11])), Err(Error::EncryptionFailed));
    assert_eq!(pkt.payload(), b"text");
}

#[test]
fn null_cipher_reads_nothing_encrypted() {
    let mut pkt = packet(b"plain");
    assert_eq!(NullCipher.encrypt(&mut pkt), Ok(()));
    assert_eq!(NullCipher.decrypt(&mut pkt), Ok(()));
    assert_eq!(pkt.payload(), b"plain");
    pkt.set_encrypted(true);
    assert_eq!(NullCipher.decrypt(&mut pkt), Err(Error::DecryptionFailed));
}
