//! Route costs.

use dashmap::DashMap;
use std::hash::Hash;
use vstd::prelude::*;

verus! {

/// Calls `DashMap::capacity`: how many entries the map has room for. Nothing is claimed of
/// it, since it depends on the allocator.
#[verifier::external_body]
fn map_capacity<K: Eq + Hash, V>(map: &DashMap<K, V>) -> usize {
    map.capacity()
}

/// Calls `DashMap::len`: how many entries the map has. Nothing is claimed of it, since
/// others may change the map at any time.
#[verifier::external_body]
fn map_len<K: Eq + Hash, V>(map: &DashMap<K, V>) -> usize {
    map.len()
}

/// Calls `DashMap::shrink_to_fit`, which gives room back and keeps the entries.
#[verifier::external_body]
fn map_shrink<K: Eq + Hash, V>(map: &DashMap<K, V>) {
    map.shrink_to_fit();
}

/// Whether a map has so much room to spare that it is worth giving some back.
pub fn should_shrink(capacity: usize, len: usize, threshold: Option<usize>) -> (r: bool)
    ensures
        r == (capacity - len > match threshold {
            Some(t) => t as int,
            None => 16,
        }),
{
    let limit: usize = match threshold {
        Some(t) => t,
        None => 16,
    };
    capacity >= len && capacity - len > limit
}

/// Gives room back that a map does not need, if it is much.
pub fn shrink_dashmap<K: Eq + Hash, V>(map: &DashMap<K, V>, threshold: Option<usize>) {
    if should_shrink(map_capacity(map), map_len(map), threshold) {
        map_shrink(map);
    }
}

/// `r` is the largest number whose square is at most `n`.
pub open spec fn is_sqrt(n: int, r: int) -> bool {
    0 <= r && r * r <= n < (r + 1) * (r + 1)
}

/// The integer square root of `n`.
pub open spec fn sqrt_floor(n: int) -> int {
    choose|r: int| is_sqrt(n, r)
}

/// Every number from zero up has exactly one integer square root.
pub proof fn sqrt_floor_is_sqrt(n: int)
    requires
        n >= 0,
    ensures
        is_sqrt(n, sqrt_floor(n)),
        forall|r: int| is_sqrt(n, r) ==> r == sqrt_floor(n),
{
    lemma_sqrt_exists(n);
    assert forall|r: int| is_sqrt(n, r) implies r == sqrt_floor(n) by {
        lemma_sqrt_unique(n, r, sqrt_floor(n));
    }
}

proof fn lemma_sqrt_exists(n: int)
    requires
        n >= 0,
    ensures
        exists|r: int| is_sqrt(n, r),
    decreases n,
{
    if n == 0 {
        assert(is_sqrt(0, 0));
    } else {
        lemma_sqrt_exists(n - 1);
        let m = n - 1;
        let r = choose|r: int| is_sqrt(m, r);
        if n < (r + 1) * (r + 1) {
            assert(is_sqrt(n, r));
        } else {
            assert((r + 1) * (r + 1) < (r + 2) * (r + 2)) by (nonlinear_arith)
                requires
                    r >= 0,
            ;
            assert(is_sqrt(n, r + 1));
        }
    }
}

proof fn lemma_newton(n: int, x: int)
    requires
        n > 0,
        x > 0,
        n < (x + 1) * (x + 1),
    ensures
        ({
            let y = (x + n / x) / 2;
            &&& y >= 0
            &&& n < (y + 1) * (y + 1)
            &&& y >= x ==> x * x <= n
        }),
{
    let q = n / x;
    let y = (x + q) / 2;
    assert(q * x <= n < (q + 1) * x) by {
        vstd::arithmetic::div_mod::lemma_fundamental_div_mod(n, x);
        assert(n == x * q + n % x);
        assert(0 <= n % x < x) by {
            vstd::arithmetic::div_mod::lemma_mod_bound(n, x);
        }
        assert(x * q == q * x) by (nonlinear_arith);
        assert((q + 1) * x == q * x + x) by (nonlinear_arith);
    }
    assert(q >= 0) by {
        vstd::arithmetic::div_mod::lemma_div_pos_is_pos(n, x);
    }
    assert(2 * (y + 1) >= x + q + 1);
    // 4 (y+1)^2 >= (x + (q+1))^2 >= 4 x (q+1) > 4 n
    assert(4 * ((y + 1) * (y + 1)) >= (x + q + 1) * (x + q + 1)) by (nonlinear_arith)
        requires
            2 * (y + 1) >= x + q + 1,
            x + q + 1 >= 0,
    ;
    assert((x + q + 1) * (x + q + 1) >= 4 * ((q + 1) * x)) by (nonlinear_arith);
    if y >= x {
        assert(q >= x);
        assert(x * x <= q * x) by (nonlinear_arith)
            requires
                q >= x,
                x > 0,
        ;
    }
}

/// The integer square root. (The largest 64-bit number has no first estimate.)
pub fn isqrt(n: u64) -> (r: u64)
    requires
        n < u64::MAX,
    ensures
        r == sqrt_floor(n as int),
{
    proof {
        sqrt_floor_is_sqrt(n as int);
    }
    if n == 0 {
        assert(is_sqrt(0, 0));
        return 0;
    }
    let mut x: u64 = n;
    let mut y: u64 = (x + 1) / 2;
    proof {
        assert(n < (n + 1) * (n + 1)) by (nonlinear_arith)
            requires
                n > 0,
        ;
        assert(n / n == 1) by (nonlinear_arith)
            requires
                n > 0,
        ;
        lemma_newton(n as int, x as int);
    }
    while y < x
        invariant
            0 < n < u64::MAX,
            0 < x <= n,
            y == (x + n as int / x as int) / 2,
            n < (x + 1) * (x + 1),
            n < (y + 1) * (y + 1),
            y >= x ==> x * x <= n,
        decreases x,
    {
        assert(y > 0) by (nonlinear_arith)
            requires
                n < (y + 1) * (y + 1),
                n > 0,
                y >= 0,
        ;
        x = y;
        proof {
            assert(n as int / x as int <= n) by (nonlinear_arith)
                requires
                    n > 0,
                    x > 0,
            ;
            lemma_newton(n as int, x as int);
            lemma_estimate_fits(n as int, x as int);
        }
        y = (x + n / x) / 2;
    }
    assert(is_sqrt(n as int, x as int));
    x
}

/// Estimates below `n` leave room in 64 bits: the square of an estimate exceeds `n`, so
/// the quotient is small.
proof fn lemma_estimate_fits(n: int, x: int)
    requires
        0 < x <= n < u64::MAX,
        n < (x + 1) * (x + 1),
    ensures
        x + n / x <= u64::MAX,
{
    let q = n / x;
    vstd::arithmetic::div_mod::lemma_fundamental_div_mod(n, x);
    vstd::arithmetic::div_mod::lemma_mod_bound(n, x);
    assert(q * x <= n) by {
        assert(x * q == q * x) by (nonlinear_arith);
    }
    assert(q >= 0) by {
        vstd::arithmetic::div_mod::lemma_div_pos_is_pos(n, x);
    }
    if x == 1 {
        assert(n < 4) by (nonlinear_arith)
            requires
                x == 1,
                n < (x + 1) * (x + 1),
        ;
        assert(q <= n) by (nonlinear_arith)
            requires
                q * x <= n,
                x == 1,
        ;
    } else {
        assert(2 * q <= q * x) by (nonlinear_arith)
            requires
                x >= 2,
                q >= 0,
        ;
        if x > n / 2 + 1 {
            assert(q <= 1) by (nonlinear_arith)
                requires
                    q * x <= n,
                    2 * x > n,
                    x > 0,
            ;
        }
    }
}

fn saturating_mul(a: u64, b: u64) -> (r: u64)
    ensures
        r == capped(a * b),
{
    match a.checked_mul(b) {
        Some(p) => p,
        None => u64::MAX,
    }
}

/// `n`, or the largest 64-bit number if that is smaller.
pub open spec fn capped(n: int) -> int {
    if n <= u64::MAX {
        n
    } else {
        u64::MAX as int
    }
}

/// How much loss counts: what exceeds one percent.
pub open spec fn effective_loss(loss_permille: int) -> int {
    if loss_permille > 10 {
        loss_permille - 10
    } else {
        0
    }
}

/// The cost of a hop: its latency, raised by `weight` percent for every unit of the
/// square root of ten times the loss that counts.
pub open spec fn loss_cost(latency: int, loss_permille: int, weight: int) -> int {
    let loss = effective_loss(loss_permille);
    if loss == 0 || weight == 0 {
        latency
    } else {
        capped(latency * capped(100 + capped(sqrt_floor(loss * 10) * weight))) / 100
    }
}

/// The cost of a hop with the given latency, loss in permille, and weight of loss.
pub fn loss_adjusted_cost(latency: u64, loss_permille: u64, weight: u64) -> (r: u64)
    requires
        weight == 0 || effective_loss(loss_permille as int) * 10 < u64::MAX,
    ensures
        r == loss_cost(latency as int, loss_permille as int, weight as int),
{
    let effective: u64 = loss_permille.saturating_sub(10);
    if effective == 0 || weight == 0 {
        return latency;
    }
    let sqrt_val: u64 = isqrt(saturating_mul(effective, 10));
    let penalty: u64 = saturating_mul(sqrt_val, weight);
    saturating_mul(latency, 100u64.saturating_add(penalty)) / 100
}

proof fn lemma_sqrt_unique(n: int, a: int, b: int)
    requires
        is_sqrt(n, a),
        is_sqrt(n, b),
    ensures
        a == b,
{
    if a < b {
        assert((a + 1) * (a + 1) <= b * b) by (nonlinear_arith)
            requires
                0 <= a < b,
        ;
    }
    if b < a {
        assert((b + 1) * (b + 1) <= a * a) by (nonlinear_arith)
            requires
                0 <= b < a,
        ;
    }
}

proof fn lemma_sqrt_monotone(n: int, m: int, a: int, b: int)
    requires
        n <= m,
        is_sqrt(n, a),
        is_sqrt(m, b),
    ensures
        a <= b,
{
    if b < a {
        assert((b + 1) * (b + 1) <= a * a) by (nonlinear_arith)
            requires
                0 <= b < a,
        ;
    }
}

/// More loss never costs less. Where a hundred times the latency exceeds 64 bits and only
/// the second loss counts, the capped product can fall below the latency: that case is
/// left out.
pub proof fn cost_grows_with_loss(latency: int, loss1: int, loss2: int, weight: int)
    requires
        0 <= latency,
        loss1 <= loss2,
        0 <= weight,
        latency * 100 <= u64::MAX || effective_loss(loss1) > 0 || effective_loss(loss2) == 0
            || weight == 0,
    ensures
        loss_cost(latency, loss1, weight) <= loss_cost(latency, loss2, weight),
{
    let l1 = effective_loss(loss1);
    let l2 = effective_loss(loss2);
    if l1 > 0 && weight > 0 {
        sqrt_floor_is_sqrt(l1 * 10);
        sqrt_floor_is_sqrt(l2 * 10);
        let r1 = sqrt_floor(l1 * 10);
        let r2 = sqrt_floor(l2 * 10);
        lemma_sqrt_monotone(l1 * 10, l2 * 10, r1, r2);
        assert(r1 * weight <= r2 * weight) by (nonlinear_arith)
            requires
                r1 <= r2,
                weight > 0,
        ;
        lemma_product_grows(
            latency,
            latency,
            capped(100 + capped(r1 * weight)),
            capped(100 + capped(r2 * weight)),
        );
    } else if l2 > 0 && weight > 0 {
        cost_is_at_least_latency(latency, loss2, weight);
    }
}

/// More latency never costs less.
pub proof fn cost_grows_with_latency(latency1: int, latency2: int, loss: int, weight: int)
    requires
        0 <= latency1 <= latency2,
        0 <= weight,
    ensures
        loss_cost(latency1, loss, weight) <= loss_cost(latency2, loss, weight),
{
    let l = effective_loss(loss);
    if l > 0 && weight > 0 {
        sqrt_floor_is_sqrt(l * 10);
        let root = sqrt_floor(l * 10);
        assert(root * weight >= 0) by (nonlinear_arith)
            requires
                root >= 0,
                weight >= 0,
        ;
        let f = capped(100 + capped(root * weight));
        lemma_product_grows(latency1, latency2, f, f);
    }
}

/// A larger weight never costs less. Where a hundred times the latency exceeds 64 bits and
/// only the second weight counts, the capped product can fall below the latency: that case
/// is left out.
pub proof fn cost_grows_with_weight(latency: int, loss: int, weight1: int, weight2: int)
    requires
        0 <= latency,
        0 <= weight1 <= weight2,
        latency * 100 <= u64::MAX || weight1 > 0 || weight2 == 0 || effective_loss(loss) == 0,
    ensures
        loss_cost(latency, loss, weight1) <= loss_cost(latency, loss, weight2),
{
    let l = effective_loss(loss);
    if l > 0 && weight1 > 0 {
        sqrt_floor_is_sqrt(l * 10);
        let root = sqrt_floor(l * 10);
        assert(0 <= root * weight1 <= root * weight2) by (nonlinear_arith)
            requires
                root >= 0,
                0 <= weight1 <= weight2,
        ;
        lemma_product_grows(
            latency,
            latency,
            capped(100 + capped(root * weight1)),
            capped(100 + capped(root * weight2)),
        );
    } else if l > 0 && weight2 > 0 {
        cost_is_at_least_latency(latency, loss, weight2);
    }
}

proof fn lemma_product_grows(a1: int, a2: int, f1: int, f2: int)
    requires
        0 <= a1 <= a2,
        0 <= f1 <= f2,
    ensures
        capped(a1 * f1) / 100 <= capped(a2 * f2) / 100,
{
    assert(a1 * f1 <= a2 * f2) by (nonlinear_arith)
        requires
            0 <= a1 <= a2,
            0 <= f1 <= f2,
    ;
}

/// Loss never makes a hop cheaper than its latency, as long as a hundred times the latency
/// fits in 64 bits.
pub proof fn cost_is_at_least_latency(latency: int, loss: int, weight: int)
    requires
        0 <= latency,
        latency * 100 <= u64::MAX,
        0 <= weight,
    ensures
        latency <= loss_cost(latency, loss, weight),
{
    let l = effective_loss(loss);
    if !(l == 0 || weight == 0) {
        sqrt_floor_is_sqrt(l * 10);
        let root = sqrt_floor(l * 10);
        assert(root * weight >= 0) by (nonlinear_arith)
            requires
                root >= 0,
                weight >= 0,
        ;
        let f = capped(100 + capped(root * weight));
        assert(latency * 100 <= latency * f) by (nonlinear_arith)
            requires
                f >= 100,
                latency >= 0,
        ;
    }
}

/// Loss of up to one percent, or a weight of zero, costs nothing.
pub proof fn baseline_loss_is_free(latency: int, loss: int, weight: int)
    requires
        loss <= 10 || weight == 0,
    ensures
        loss_cost(latency, loss, weight) == latency,
{
}

} // verus!
