use easytier::common::replay_window::ReplayWindow;

#[test]
fn first_packet_always_accepted() {
    let mut w = ReplayWindow::<8>::default();
    assert!(w.accept(42));
}

#[test]
fn duplicate_rejected() {
    let mut w = ReplayWindow::<8>::default();
    assert!(w.accept(1));
    assert!(!w.accept(1));
}

#[test]
fn sequential_all_accepted() {
    let mut w = ReplayWindow::<8>::default();
    for i in 0..200 {
        assert!(w.accept(i), "seq {i} should be accepted");
    }
}

#[test]
fn out_of_order_within_window() {
    let mut w = ReplayWindow::<8>::default();
    assert!(w.accept(10));
    assert!(w.accept(8));
    assert!(w.accept(9));
    assert!(w.accept(7));
    assert!(!w.accept(8));
}

#[test]
fn too_old_rejected() {
    let mut w = ReplayWindow::<8>::default();
    // window size = 8 * 8 = 64
    assert!(w.accept(0));
    assert!(w.accept(100));
    // seq 0 is now 100 behind max, window is 64 → rejected
    assert!(!w.accept(0));
    // seq 36 is exactly 64 behind → rejected
    assert!(!w.accept(36));
    // seq 37 is 63 behind → accepted
    assert!(w.accept(37));
}

#[test]
fn large_jump_resets_window() {
    let mut w = ReplayWindow::<8>::default();
    assert!(w.accept(0));
    assert!(w.accept(1));
    // jump far beyond window
    assert!(w.accept(1000));
    // old values rejected
    assert!(!w.accept(0));
    assert!(!w.accept(1));
    // new values near 1000 accepted
    assert!(w.accept(999));
    assert!(w.accept(998));
}

#[test]
fn wrapping_sequence_numbers() {
    let mut w = ReplayWindow::<8>::default();
    let base = u32::MAX as u64 - 10;
    for i in 0..20 {
        assert!(w.accept(base + i), "seq {} should be accepted", base + i);
    }
}

#[test]
fn window_boundary_exact() {
    let mut w = ReplayWindow::<4>::default();
    // window size = 4 * 8 = 32
    assert!(w.accept(0));
    assert!(w.accept(31));
    // seq 0 is exactly 31 behind max_seq (31), within window of 32
    assert!(!w.accept(0)); // already seen
    // advance to 32
    assert!(w.accept(32));
    // seq 0 is 32 behind max_seq (32), delta == WINDOW_SIZE → rejected
    assert!(!w.accept(0));
}

#[test]
fn test_basic_accept() {
    let mut w = ReplayWindow::<4>::default(); // 32-bit window
    assert!(w.accept(1));
    assert!(w.accept(2));
    assert!(w.accept(3));
    // Duplicate rejection
    assert!(!w.accept(1));
    assert!(!w.accept(2));
    assert!(!w.accept(3));
}

#[test]
fn test_out_of_order() {
    let mut w = ReplayWindow::<4>::default(); // 32-bit window
    assert!(w.accept(5));
    assert!(w.accept(3));
    assert!(w.accept(1));
    assert!(w.accept(4));
    assert!(w.accept(2));
    // All should now be duplicates
    assert!(!w.accept(1));
    assert!(!w.accept(5));
}

#[test]
fn test_window_overflow() {
    let mut w = ReplayWindow::<4>::default(); // 32-bit window
    assert!(w.accept(1));
    // Jump past window
    assert!(w.accept(100));
    // seq 1 is now outside window, should be rejected
    assert!(!w.accept(1));
    // But seq 100-31=69 and above should work if not seen
    assert!(w.accept(69));
    // seq 68 is outside window (100 - 68 = 32 >= WINDOW_SIZE=32)
    assert!(!w.accept(68));
}

#[test]
fn test_sequential_traffic() {
    let mut w = ReplayWindow::<32>::default(); // 256-bit window
    for i in 1..=1000u64 {
        assert!(w.accept(i));
    }
    // Recent packets should be rejected
    for i in 745..=1000u64 {
        assert!(!w.accept(i));
    }
    // Old packets outside window should be rejected
    assert!(!w.accept(1));
    assert!(!w.accept(744));
}

#[test]
fn test_large_window() {
    let mut w = ReplayWindow::<8192>::default(); // 65536-bit window
    assert!(w.accept(1));
    assert!(w.accept(65537)); // large jump
    assert!(!w.accept(1)); // too old
    assert!(w.accept(2)); // still within window (65537 - 2 = 65535 < 65536)
    assert!(!w.accept(2)); // duplicate
}

#[test]
fn test_can_accept() {
    let mut w = ReplayWindow::<4>::default(); // 32-bit window
    assert!(w.can_accept(1));
    assert!(w.accept(1));
    assert!(!w.can_accept(1));
    assert!(w.can_accept(2));
    assert!(w.can_accept(100));
}

#[test]
fn test_clear() {
    let mut w = ReplayWindow::<4>::default();
    assert!(w.accept(50));
    assert!(!w.accept(50));
    w.clear();
    assert!(w.accept(50));
}

#[test]
fn test_wrap_around_ring() {
    let mut w = ReplayWindow::<4>::default(); // 32-bit window
    // Fill the window by advancing one at a time
    for i in 1..=64u64 {
        assert!(w.accept(i));
    }
    // All recent should be duplicates
    for i in 33..=64u64 {
        assert!(!w.accept(i));
    }
    // Old ones outside window
    assert!(!w.accept(1));
    assert!(!w.accept(32));
}

#[test]
fn accepted_sequence_stays_spent() {
    let mut w = ReplayWindow::<4>::default();
    assert!(w.accept(7));
    assert!(w.accept(9));
    assert!(w.accept(30));
    assert!(!w.accept(7));
    assert!(!w.accept(9));
    assert!(!w.can_accept(30));
}

#[test]
fn last_sequence_number_is_accepted() {
    let mut w = ReplayWindow::<4>::default();
    assert!(w.accept(0));
    assert!(w.accept(u64::MAX));
    assert!(!w.accept(u64::MAX));
    assert!(w.accept(u64::MAX - 31));
    assert!(!w.accept(u64::MAX - 32));
}
