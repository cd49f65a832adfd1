use easytier::peers::encrypt::Error;
use easytier::tunnel::packet_def::{PacketType, ZCPacket};
use easytier::tunnel::padding::{
    add_padding, add_padding_from, effective_padding_max, remove_padding, DEFAULT_PADDING_MAX,
    PADDING_LEN_SUFFIX_SIZE, PADDING_TOTAL_BUDGET,
};

#[test]
fn test_add_remove_roundtrip() {
    let payload = b"hello world test data";
    let mut pkt = ZCPacket::new_with_payload(payload);
    pkt.fill_peer_manager_hdr(1, 2, 0);

    add_padding(&mut pkt, 128);
    assert!(pkt.buf_len() > payload.len());

    remove_padding(&mut pkt).unwrap();
    assert_eq!(pkt.payload(), payload);
}

#[test]
fn test_padding_zero_max() {
    let payload = b"no padding";
    let mut pkt = ZCPacket::new_with_payload(payload);
    pkt.fill_peer_manager_hdr(1, 2, 0);
    let original_len = pkt.buf_len();

    add_padding(&mut pkt, 0);
    assert_eq!(pkt.buf_len(), original_len + PADDING_LEN_SUFFIX_SIZE);

    remove_padding(&mut pkt).unwrap();
    assert_eq!(pkt.payload(), payload);
}

#[test]
fn test_padding_varies() {
    let payload = b"test";
    let mut lengths = std::collections::HashSet::new();
    for _ in 0..100 {
        let mut pkt = ZCPacket::new_with_payload(payload);
        pkt.fill_peer_manager_hdr(1, 2, 0);
        add_padding(&mut pkt, 128);
        lengths.insert(pkt.buf_len());
    }
    assert!(lengths.len() > 1);
}

#[test]
fn test_remove_padding_too_short() {
    let mut pkt = ZCPacket::new_with_payload(&[]);
    pkt.fill_peer_manager_hdr(1, 2, 0);
    assert!(remove_padding(&mut pkt).is_err());
}

#[test]
fn test_remove_padding_corrupted_length() {
    // Manually craft a packet with an invalid padding_len that exceeds payload
    let mut pkt = ZCPacket::new_with_payload(&[0x00, 0x00]);
    pkt.fill_peer_manager_hdr(1, 2, 0);
    // Overwrite the last 2 bytes to claim 255 bytes of padding
    let buf_len = pkt.buf_len();
    let inner = pkt.mut_inner();
    inner[buf_len - 2] = 0xFF;
    inner[buf_len - 1] = 0x00; // padding_len = 255, but payload is only 2 bytes
    assert!(remove_padding(&mut pkt).is_err());
}

#[test]
fn test_effective_padding_max() {
    assert_eq!(effective_padding_max(0), DEFAULT_PADDING_MAX);
    assert_eq!(effective_padding_max(64), 64);
    assert_eq!(effective_padding_max(1), 1);
    assert_eq!(effective_padding_max(1000), 1000);
}

#[test]
fn test_padding_respects_budget() {
    // 1280 = default mtu, should fit within budget
    let large_payload = vec![0xAB; 1280];
    for _ in 0..200 {
        let mut pkt = ZCPacket::new_with_payload(&large_payload);
        pkt.fill_peer_manager_hdr(1, 2, 0);
        add_padding(&mut pkt, DEFAULT_PADDING_MAX);
        assert!(
            pkt.buf_len() <= PADDING_TOTAL_BUDGET,
            "buf_len {} exceeded budget {}",
            pkt.buf_len(),
            PADDING_TOTAL_BUDGET
        );
        remove_padding(&mut pkt).unwrap();
        assert_eq!(pkt.payload(), &large_payload[..]);
    }
}

#[test]
fn test_padding_never_exceeds_budget() {
    // NIC packet: buf_len = PAYLOAD_OFFSET_FOR_NIC(40) + payload
    // Budget limits buf_len in NIC format
    let payload = vec![0xCC; PADDING_TOTAL_BUDGET];
    let mut pkt = ZCPacket::new_with_payload(&payload);
    pkt.fill_peer_manager_hdr(1, 2, 0);
    let pre_len = pkt.buf_len();

    add_padding(&mut pkt, 128);
    // When already over budget, only suffix is added
    assert_eq!(pkt.buf_len(), pre_len + PADDING_LEN_SUFFIX_SIZE);
    remove_padding(&mut pkt).unwrap();
    assert_eq!(pkt.payload(), &payload[..]);
}

#[test]
fn test_padding_small_packet_gets_padding() {
    let payload = vec![0xAA; 100];
    let mut pkt = ZCPacket::new_with_payload(&payload);
    pkt.fill_peer_manager_hdr(1, 2, 0);
    let pre_len = pkt.buf_len();

    // Small packet should have room for substantial padding
    let mut got_nonzero = false;
    for _ in 0..50 {
        let mut pkt = ZCPacket::new_with_payload(&payload);
        pkt.fill_peer_manager_hdr(1, 2, 0);
        add_padding(&mut pkt, DEFAULT_PADDING_MAX);
        assert!(pkt.buf_len() <= PADDING_TOTAL_BUDGET);
        if pkt.buf_len() > pre_len + PADDING_LEN_SUFFIX_SIZE {
            got_nonzero = true;
        }
        remove_padding(&mut pkt).unwrap();
        assert_eq!(pkt.payload(), &payload[..]);
    }
    assert!(got_nonzero, "small packets should get non-zero padding");
}

#[test]
fn test_faketcp_mtu_safety() {
    // Simulate the full path: padding → encrypt(+28) → convert NIC→TCP(-16)
    // → IP+TCP overhead → must fit in path MTU 1400
    const AEAD_TAIL_SIZE: usize = 28;
    const NIC_TO_TCP_SHRINK: usize = 16;
    const IP_TCP_OVERHEAD: usize = 20 + 32; // IP + TCP+TS
    const PATH_MTU: usize = 1400;

    let large_payload = vec![0xAB; 1280]; // default mtu
    for _ in 0..1000 {
        let mut pkt = ZCPacket::new_with_payload(&large_payload);
        pkt.fill_peer_manager_hdr(1, 2, 0);
        add_padding(&mut pkt, DEFAULT_PADDING_MAX);

        let tcp_buf_len = pkt.buf_len() - NIC_TO_TCP_SHRINK;
        let post_encrypt_size = tcp_buf_len + AEAD_TAIL_SIZE;
        let ip_packet_size = IP_TCP_OVERHEAD + post_encrypt_size;
        assert!(
            ip_packet_size <= PATH_MTU,
            "IP packet {} would exceed path MTU {} (nic_buf={}, tcp_buf={}, encrypted={})",
            ip_packet_size,
            PATH_MTU,
            pkt.buf_len(),
            tcp_buf_len,
            post_encrypt_size
        );
    }
}

#[test]
fn padding_test_add_remove_roundtrip() {
    let payload = b"hello world test data";
    let mut pkt = ZCPacket::new_with_payload(payload);
    pkt.fill_peer_manager_hdr(1, 2, 0);

    add_padding(&mut pkt, 128);
    assert!(pkt.buf_len() > payload.len());

    remove_padding(&mut pkt).unwrap();
    assert_eq!(pkt.payload(), payload);
}

#[test]
fn padding_test_padding_zero_max() {
    let payload = b"no padding";
    let mut pkt = ZCPacket::new_with_payload(payload);
    pkt.fill_peer_manager_hdr(1, 2, 0);
    let original_len = pkt.buf_len();

    add_padding(&mut pkt, 0);
    assert_eq!(pkt.buf_len(), original_len + PADDING_LEN_SUFFIX_SIZE);

    remove_padding(&mut pkt).unwrap();
    assert_eq!(pkt.payload(), payload);
}

#[test]
fn padding_test_padding_varies() {
    let payload = b"test";
    let mut lengths = std::collections::HashSet::new();
    for _ in 0..100 {
        let mut pkt = ZCPacket::new_with_payload(payload);
        pkt.fill_peer_manager_hdr(1, 2, 0);
        add_padding(&mut pkt, 128);
        lengths.insert(pkt.buf_len());
    }
    assert!(lengths.len() > 1);
}

#[test]
fn padding_test_remove_padding_too_short() {
    let mut pkt = ZCPacket::new_with_payload(&[]);
    pkt.fill_peer_manager_hdr(1, 2, 0);
    assert!(remove_padding(&mut pkt).is_err());
}

#[test]
fn padding_test_remove_padding_corrupted_length() {
    let mut pkt = ZCPacket::new_with_payload(&[0x00, 0x00]);
    pkt.fill_peer_manager_hdr(1, 2, 0);
    let buf_len = pkt.buf_len();
    let inner = pkt.mut_inner();
    inner[buf_len - 2] = 0xFF;
    inner[buf_len - 1] = 0x00;
    assert!(remove_padding(&mut pkt).is_err());
}



#[test]
fn padding_test_padding_respects_budget() {
    let large_payload = vec![0xAB; 1280];
    for _ in 0..200 {
        let mut pkt = ZCPacket::new_with_payload(&large_payload);
        pkt.fill_peer_manager_hdr(1, 2, 0);
        add_padding(&mut pkt, DEFAULT_PADDING_MAX);
        assert!(
            pkt.buf_len() <= PADDING_TOTAL_BUDGET,
            "buf_len {} exceeded budget {}",
            pkt.buf_len(),
            PADDING_TOTAL_BUDGET
        );
        remove_padding(&mut pkt).unwrap();
        assert_eq!(pkt.payload(), &large_payload[..]);
    }
}

#[test]
fn padding_test_padding_never_exceeds_budget() {
    let payload = vec![0xCC; PADDING_TOTAL_BUDGET];
    let mut pkt = ZCPacket::new_with_payload(&payload);
    pkt.fill_peer_manager_hdr(1, 2, 0);
    let pre_len = pkt.buf_len();

    add_padding(&mut pkt, 128);
    assert_eq!(pkt.buf_len(), pre_len + PADDING_LEN_SUFFIX_SIZE);
    remove_padding(&mut pkt).unwrap();
    assert_eq!(pkt.payload(), &payload[..]);
}

#[test]
fn padding_test_padding_small_packet_gets_padding() {
    let payload = vec![0xAA; 100];
    let pre_len = {
        let mut pkt = ZCPacket::new_with_payload(&payload);
        pkt.fill_peer_manager_hdr(1, 2, 0);
        pkt.buf_len()
    };

    let mut got_nonzero = false;
    for _ in 0..50 {
        let mut pkt = ZCPacket::new_with_payload(&payload);
        pkt.fill_peer_manager_hdr(1, 2, 0);
        add_padding(&mut pkt, DEFAULT_PADDING_MAX);
        assert!(pkt.buf_len() <= PADDING_TOTAL_BUDGET);
        if pkt.buf_len() > pre_len + PADDING_LEN_SUFFIX_SIZE {
            got_nonzero = true;
        }
        remove_padding(&mut pkt).unwrap();
        assert_eq!(pkt.payload(), &payload[..]);
    }
    assert!(got_nonzero, "small packets should get non-zero padding");
}

#[test]
fn padding_test_faketcp_mtu_safety() {
    const AEAD_TAIL_SIZE: usize = 28;
    const NIC_TO_TCP_SHRINK: usize = 16;
    const IP_TCP_OVERHEAD: usize = 20 + 32;
    const PATH_MTU: usize = 1400;

    let large_payload = vec![0xAB; 1280];
    for _ in 0..1000 {
        let mut pkt = ZCPacket::new_with_payload(&large_payload);
        pkt.fill_peer_manager_hdr(1, 2, 0);
        add_padding(&mut pkt, DEFAULT_PADDING_MAX);

        let tcp_buf_len = pkt.buf_len() - NIC_TO_TCP_SHRINK;
        let post_encrypt_size = tcp_buf_len + AEAD_TAIL_SIZE;
        let ip_packet_size = IP_TCP_OVERHEAD + post_encrypt_size;
        assert!(
            ip_packet_size <= PATH_MTU,
            "IP packet {} would exceed path MTU {} (nic_buf={}, tcp_buf={}, encrypted={})",
            ip_packet_size,
            PATH_MTU,
            pkt.buf_len(),
            tcp_buf_len,
            post_encrypt_size
        );
    }
}

#[test]
fn chosen_padding_is_exact() {
    let mut pkt = ZCPacket::new_with_payload(b"abc");
    pkt.fill_peer_manager_hdr(1, 2, 0);
    let before = pkt.buf_len();
    add_padding_from(&mut pkt, 4, 7, &[9, 8, 7, 6]);
    assert_eq!(pkt.buf_len(), before + 4);
    assert_eq!(pkt.payload(), &[b'a', b'b', b'c', 9, 8, 2, 0]);
    remove_padding(&mut pkt).unwrap();
    assert_eq!(pkt.payload(), b"abc");
}

#[test]
fn short_packet_names_its_length() {
    let mut pkt = ZCPacket::new_with_payload(&[1]);
    assert_eq!(remove_padding(&mut pkt), Err(Error::PacketTooShort(1)));
    assert_eq!(pkt.payload(), &[1]);
}

#[test]
fn header_reads_back() {
    let mut pkt = ZCPacket::new_with_payload(b"abc");
    pkt.fill_peer_manager_hdr(10, 0x01020304, PacketType::Data.number());
    let h = pkt.peer_manager_header().unwrap();
    assert_eq!(h.from_peer_id, 10);
    assert_eq!(h.to_peer_id, 0x01020304);
    assert_eq!(h.packet_type, 1);
    assert_eq!(h.flags, 0);
    assert_eq!(h.forward_counter, 1);
    assert_eq!(h.len, 3);
    assert!(!h.is_encrypted());
}
