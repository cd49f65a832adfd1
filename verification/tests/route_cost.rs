use dashmap::DashMap;
use easytier::peers::util::{isqrt, loss_adjusted_cost, should_shrink, shrink_dashmap};

#[test]
fn no_penalty_when_loss_at_or_below_baseline() {
    assert_eq!(loss_adjusted_cost(100, 0, 7), 100);
    assert_eq!(loss_adjusted_cost(100, 10, 7), 100);
    assert_eq!(loss_adjusted_cost(100, 30, 0), 100);
}

#[test]
fn penalty_increases_with_sqrt_of_loss() {
    let w = 7;
    let c20 = loss_adjusted_cost(100, 20, w);
    let c30 = loss_adjusted_cost(100, 30, w);
    let c50 = loss_adjusted_cost(100, 50, w);
    let c100 = loss_adjusted_cost(100, 100, w);
    assert_eq!(c20, 170);
    assert_eq!(c30, 198);
    assert_eq!(c50, 240);
    assert_eq!(c100, 310);
    assert!(c20 < c30 && c30 < c50 && c50 < c100);
}

#[test]
fn lossy_direct_prefers_relay() {
    let w = 7;
    // 125ms/3% direct vs 5+124ms/0% relay
    assert!(loss_adjusted_cost(125, 30, w) > loss_adjusted_cost(5, 0, w) + loss_adjusted_cost(124, 0, w));
    // 80ms/2% direct vs 130ms/0% relay
    assert!(loss_adjusted_cost(80, 20, w) > loss_adjusted_cost(130, 0, w));
}

#[test]
fn large_latency_gap_keeps_direct() {
    let w = 7;
    // 60ms/3% direct vs 120ms/0%: direct still wins (latency gap too large)
    assert!(loss_adjusted_cost(60, 30, w) < loss_adjusted_cost(120, 0, w));
    // 50ms/2% direct vs 130ms/0%: direct wins
    assert!(loss_adjusted_cost(50, 20, w) < loss_adjusted_cost(130, 0, w));
}

#[test]
fn multi_hop_relay_cost_is_additive() {
    let w = 7;
    // A→B(10ms/2%) + B→C(20ms/1%) + C→D(15ms/0%)
    let hop1 = loss_adjusted_cost(10, 20, w);
    let hop2 = loss_adjusted_cost(20, 10, w);
    let hop3 = loss_adjusted_cost(15, 0, w);
    let total = hop1 + hop2 + hop3;
    // Each hop computed independently; 1% (10 permille) hops are free
    assert_eq!(hop2, 20);
    assert_eq!(hop3, 15);
    assert_eq!(total, hop1 + 20 + 15);
}

#[test]
fn extreme_inputs_no_overflow() {
    assert!(loss_adjusted_cost(100, 1000, 7) < u64::MAX / 2);
    assert!(loss_adjusted_cost(u32::MAX as u64, 500, 100) < u64::MAX / 2);
}

#[test]
fn square_root_rounds_down() {
    assert_eq!(isqrt(0), 0);
    assert_eq!(isqrt(99), 9);
    assert_eq!(isqrt(100), 10);
    assert_eq!(isqrt(u64::MAX - 1), 4294967295);
}

#[test]
fn shrinks_only_with_much_to_spare() {
    assert!(!should_shrink(20, 4, None));
    assert!(should_shrink(21, 4, None));
    assert!(should_shrink(8, 4, Some(3)));
    assert!(!should_shrink(8, 4, Some(4)));
    assert!(!should_shrink(4, 8, Some(0)));
}

#[test]
fn shrinking_keeps_the_entries() {
    let map: DashMap<u32, u32> = DashMap::with_capacity(10_000);
    map.insert(1, 2);
    let before = map.capacity();
    shrink_dashmap(&map, None);
    assert!(map.capacity() < before);
    assert_eq!(map.len(), 1);
    assert_eq!(*map.get(&1).unwrap(), 2);
}

#[test]
fn cost_grows_with_each_of_its_inputs() {
    let losses = [0, 10, 11, 20, 30, 100, 999];
    let latencies = [0, 1, 99, 100, 125, 1_000_000, u64::MAX / 100];
    let weights = [0, 1, 7, 100, u64::MAX];
    for &weight in &weights {
        for &latency in &latencies {
            for pair in losses.windows(2) {
                let low = loss_adjusted_cost(latency, pair[0], weight);
                assert!(latency <= low && low <= loss_adjusted_cost(latency, pair[1], weight));
            }
        }
        for &loss in &losses {
            for pair in latencies.windows(2) {
                let low = loss_adjusted_cost(pair[0], loss, weight);
                assert!(low <= loss_adjusted_cost(pair[1], loss, weight));
            }
        }
    }
    for &latency in &latencies {
        for &loss in &losses {
            for pair in weights.windows(2) {
                let low = loss_adjusted_cost(latency, loss, pair[0]);
                assert!(low <= loss_adjusted_cost(latency, loss, pair[1]));
            }
        }
    }
    assert_eq!(loss_adjusted_cost(200, 20, 7), 340);
    assert_eq!(loss_adjusted_cost(100, 20, 14), 240);
}

#[test]
fn a_capped_cost_can_fall_below_the_latency() {
    assert_eq!(loss_adjusted_cost(u64::MAX, 10, 7), u64::MAX);
    assert_eq!(loss_adjusted_cost(u64::MAX, 20, 7), u64::MAX / 100);
    assert_eq!(loss_adjusted_cost(u64::MAX, 20, 0), u64::MAX);
}
