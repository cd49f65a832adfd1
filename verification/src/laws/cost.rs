//! The price of a hop.

use crate::peers::util;
use vstd::prelude::*;

verus! {

/// A hop costs its latency times `100 + root * weight` percent, where `root` is the integer
/// square root of ten times the loss above ten permille. Products above 64 bits count as
/// the largest 64-bit number.
pub proof fn lossy_hop_is_priced_by_the_root(
    latency: int,
    loss_permille: int,
    weight: int,
    root: int,
)
    requires
        0 <= latency,
        10 < loss_permille,
        0 < weight,
        0 <= root,
        root * root <= (loss_permille - 10) * 10 < (root + 1) * (root + 1),
    ensures
        ({
            let cost = util::loss_cost(latency, loss_permille, weight);
            let percent = 100 + root * weight;
            &&& percent <= 0xffff_ffff_ffff_ffff && latency * percent <= 0xffff_ffff_ffff_ffff
                ==> cost == latency * percent / 100
            &&& percent <= 0xffff_ffff_ffff_ffff < latency * percent ==> cost
                == 0xffff_ffff_ffff_ffffint / 100
            &&& percent > 0xffff_ffff_ffff_ffff && latency > 0 ==> cost == 0xffff_ffff_ffff_ffffint
                / 100
            &&& latency == 0 ==> cost == 0
        }),
{
    let n = (loss_permille - 10) * 10;
    util::sqrt_floor_is_sqrt(n);
    assert(util::is_sqrt(n, root));
    assert(root * weight >= 0) by (nonlinear_arith)
        requires
            root >= 0,
            weight > 0,
    ;
    let top = 0xffff_ffff_ffff_ffffint;
    if latency > 0 {
        assert(latency * top >= top) by (nonlinear_arith)
            requires
                latency > 0,
                top > 0,
        ;
    }
    assert(util::effective_loss(loss_permille) * 10 == n);
}

/// Loss of up to ten permille, or without weight, costs nothing.
pub proof fn clean_hop_costs_its_latency(latency: int, loss_permille: int, weight: int)
    requires
        loss_permille <= 10 || weight == 0,
    ensures
        util::loss_cost(latency, loss_permille, weight) == latency,
{
}

/// The integer square root is the largest number whose square is not above `n`.
pub proof fn root_is_the_largest(n: int, other: int)
    requires
        0 <= n,
        0 <= other,
        other * other <= n,
    ensures
        ({
            let root = util::sqrt_floor(n);
            &&& 0 <= root
            &&& root * root <= n
            &&& other <= root
        }),
{
    util::sqrt_floor_is_sqrt(n);
    let root = util::sqrt_floor(n);
    if root < other {
        assert((root + 1) * (root + 1) <= other * other) by (nonlinear_arith)
            requires
                0 <= root < other,
        ;
    }
}

// --- Calls ---

/// What the price of a hop comes to: up to ten permille of loss, and without weight, the
/// latency; above, the latency grows by `weight` percent for each unit of the root of ten
/// times the loss above ten permille, however large the loss.
pub proof fn hop_is_priced(latency: u64, loss_permille: u64, weight: u64, root: int, cost: u64)
    requires
        call_ensures(util::loss_adjusted_cost, (latency, loss_permille, weight), cost),
        loss_permille > 10 ==> 0 <= root && root * root <= (loss_permille - 10) * 10 < (root + 1)
            * (root + 1),
    ensures
        loss_permille <= 10 || weight == 0 ==> cost == latency,
        loss_permille > 10 && weight > 0 && latency * (100 + root * weight) <= u64::MAX && 100 + root
            * weight <= u64::MAX ==> cost == latency * (100 + root * weight) / 100,
{
    if loss_permille <= 10 || weight == 0 {
        clean_hop_costs_its_latency(latency as int, loss_permille as int, weight as int);
    } else {
        lossy_hop_is_priced_by_the_root(
            latency as int,
            loss_permille as int,
            weight as int,
            root,
        );
    }
}

/// More loss never makes a hop cheaper, as long as the latency leaves room for its hundredfold.
pub proof fn loss_never_pays(latency: u64, less: u64, more: u64, weight: u64, cheap: u64, dear: u64)
    requires
        call_ensures(util::loss_adjusted_cost, (latency, less, weight), cheap),
        call_ensures(util::loss_adjusted_cost, (latency, more, weight), dear),
        less <= more,
        latency * 100 <= u64::MAX,
    ensures
        latency <= cheap <= dear,
{
    if more > 10 && weight > 0 {
        let high = util::sqrt_floor((more - 10) * 10);
        util::sqrt_floor_is_sqrt((more - 10) * 10);
        lossy_hop_is_priced_by_the_root(latency as int, more as int, weight as int, high);
        lemma_dearer(latency as int, weight as int, 0, high);
        if less > 10 {
            let low = util::sqrt_floor((less - 10) * 10);
            util::sqrt_floor_is_sqrt((less - 10) * 10);
            root_is_the_largest((more - 10) * 10, low);
            lossy_hop_is_priced_by_the_root(latency as int, less as int, weight as int, low);
            lemma_dearer(latency as int, weight as int, low, high);
            lemma_dearer(latency as int, weight as int, 0, low);
        } else {
            clean_hop_costs_its_latency(latency as int, less as int, weight as int);
        }
    } else {
        clean_hop_costs_its_latency(latency as int, more as int, weight as int);
        clean_hop_costs_its_latency(latency as int, less as int, weight as int);
    }
}

proof fn lemma_dearer(latency: int, weight: int, low: int, high: int)
    requires
        0 <= latency,
        0 < weight,
        0 <= low <= high,
    ensures
        latency * 100 <= latency * (100 + low * weight) <= latency * (100 + high * weight),
        100 <= 100 + low * weight <= 100 + high * weight,
{
    assert(0 <= low * weight <= high * weight) by (nonlinear_arith)
        requires
            0 <= low <= high,
            0 < weight,
    ;
    let p = 100 + low * weight;
    let q = 100 + high * weight;
    assert(latency * 100 <= latency * p <= latency * q) by (nonlinear_arith)
        requires
            100 <= p <= q,
            0 <= latency,
    ;
}

/// A map is shrunk when it has more room to spare than the threshold, which is 16 if none is
/// given.
pub proof fn spare_room_is_given_up(capacity: usize, len: usize, threshold: Option<usize>, r: bool)
    requires
        call_ensures(util::should_shrink, (capacity, len, threshold), r),
        len <= capacity,
    ensures
        threshold matches Some(t) ==> r == (capacity > len + t),
        threshold is None ==> r == (capacity > len + 16),
{
}

/// The root that is computed is the largest number whose square is not above `n`.
pub proof fn computed_root_is_the_largest(n: u64, other: u64, root: u64)
    requires
        call_ensures(util::isqrt, (n,), root),
    ensures
        root * root <= n < (root + 1) * (root + 1),
        other * other <= n ==> other <= root,
{
    util::sqrt_floor_is_sqrt(n as int);
    if other * other <= n {
        root_is_the_largest(n as int, other as int);
    }
}

} // verus!
