//! What a provider puts into a pool and gets out of it.
//!
//! The first provider of a pool sets its price: both amounts are taken as
//! offered. Every later provider adds to both reserves in the proportion in
//! which they stand, as much as the smaller of the two offers allows, and
//! gets shares in that same proportion. Shares are redeemed for the same part
//! of both reserves as they are of all shares. Every quotient is rounded
//! down, so rounding never favours the provider.

use crate::primitives::Balance;
use crate::wide::{lemma_quotient_at_least, Wide};
use vstd::prelude::*;

verus! {

/// What adding liquidity takes and gives: the amount taken of the first
/// asset, the amount taken of the second, and the shares minted. `None`
/// where one of the three would be zero, or the shares would not fit in 128
/// bits.
///
/// `pool_a` and `pool_b` are the reserves, `max_a` and `max_b` the amounts
/// offered, all in the caller's order; `a_is_first` says whether the caller's
/// first asset is the first of the canonical pair, whose amount the first
/// provider gets as shares.
pub open spec fn spec_increment(
    pool_a: Balance,
    pool_b: Balance,
    total_shares: Balance,
    max_a: Balance,
    max_b: Balance,
    a_is_first: bool,
) -> Option<(Balance, Balance, Balance)> {
    if total_shares == 0 {
        if max_a == 0 || max_b == 0 {
            None
        } else {
            Some(
                (
                    max_a,
                    max_b,
                    if a_is_first {
                        max_a
                    } else {
                        max_b
                    },
                ),
            )
        }
    } else if pool_a == 0 || pool_b == 0 {
        None
    } else if max_a * pool_b <= max_b * pool_a {
        let use_b = (max_a * pool_b) / (pool_a as int);
        let shares = (max_a * total_shares) / (pool_a as int);
        if max_a == 0 || use_b == 0 || shares == 0 || shares > u128::MAX {
            None
        } else {
            Some((max_a, use_b as Balance, shares as Balance))
        }
    } else {
        let use_a = (max_b * pool_a) / (pool_b as int);
        let shares = (max_b * total_shares) / (pool_b as int);
        if max_b == 0 || use_a == 0 || shares == 0 || shares > u128::MAX {
            None
        } else {
            Some((use_a as Balance, max_b, shares as Balance))
        }
    }
}

/// What `share_amount` shares are redeemed for: the amounts paid out of the
/// two reserves. `None` where there are no shares at all, none are redeemed,
/// or an amount would not fit in 128 bits.
pub open spec fn spec_withdrawal(
    pool_a: Balance,
    pool_b: Balance,
    total_shares: Balance,
    share_amount: Balance,
) -> Option<(Balance, Balance)> {
    if total_shares == 0 || share_amount == 0 {
        None
    } else {
        let out_a = (share_amount * pool_a) / (total_shares as int);
        let out_b = (share_amount * pool_b) / (total_shares as int);
        if out_a > u128::MAX || out_b > u128::MAX {
            None
        } else {
            Some((out_a as Balance, out_b as Balance))
        }
    }
}

/// A quotient is at most `bound` where the dividend is at most `bound`
/// divisors.
proof fn lemma_quotient_at_most(x: int, d: int, bound: int)
    by (nonlinear_arith)
    requires
        d > 0,
        x >= 0,
        x <= bound * d,
    ensures
        x / d <= bound,
{
    if x / d > bound {
        assert(x == d * (x / d) + x % d);
        assert(0 <= x % d < d);
        assert(d * (x / d) >= d * (bound + 1));
    }
}

/// The floor of `a * b / d`, where it is known to be at most `bound`.
fn bounded_mul_div(a: Balance, b: Balance, d: Balance, Ghost(bound): Ghost<int>) -> (r: Balance)
    requires
        d > 0,
        a * b <= bound * d,
        bound <= u128::MAX,
    ensures
        r == (a * b) / (d as int),
        r <= bound,
{
    proof {
        assert(a * b >= 0) by (nonlinear_arith)
            requires
                a >= 0,
                b >= 0,
        ;
        lemma_quotient_at_most(a * b, d as int, bound);
    }
    match Wide::mul_div(Wide::from_u128(a), b, Wide::from_u128(d)) {
        Some(q) => q,
        None => 0,
    }
}

/// What adding liquidity takes and gives.
pub fn increment(
    pool_a: Balance,
    pool_b: Balance,
    total_shares: Balance,
    max_a: Balance,
    max_b: Balance,
    a_is_first: bool,
) -> (r: Option<(Balance, Balance, Balance)>)
    ensures
        r == spec_increment(pool_a, pool_b, total_shares, max_a, max_b, a_is_first),
        r matches Some((use_a, use_b, shares)) ==> 0 < use_a <= max_a && 0 < use_b <= max_b
            && shares > 0,
{
    if total_shares == 0 {
        if max_a == 0 || max_b == 0 {
            return None;
        }
        let shares: Balance = if a_is_first {
            max_a
        } else {
            max_b
        };
        return Some((max_a, max_b, shares));
    }
    if pool_a == 0 || pool_b == 0 {
        return None;
    }
    let offer_a: Wide = Wide::product(max_a, pool_b);
    let offer_b: Wide = Wide::product(max_b, pool_a);
    if offer_a.le(offer_b) {
        if max_a == 0 {
            return None;
        }
        let use_b: Balance = bounded_mul_div(max_a, pool_b, pool_a, Ghost(max_b as int));
        let shares: Option<Balance> = Wide::mul_div(
            Wide::from_u128(max_a),
            total_shares,
            Wide::from_u128(pool_a),
        );
        match shares {
            Some(s) => {
                if use_b == 0 || s == 0 {
                    None
                } else {
                    Some((max_a, use_b, s))
                }
            },
            None => None,
        }
    } else {
        if max_b == 0 {
            return None;
        }
        let use_a: Balance = bounded_mul_div(max_b, pool_a, pool_b, Ghost(max_a as int));
        let shares: Option<Balance> = Wide::mul_div(
            Wide::from_u128(max_b),
            total_shares,
            Wide::from_u128(pool_b),
        );
        match shares {
            Some(s) => {
                if use_a == 0 || s == 0 {
                    None
                } else {
                    Some((use_a, max_b, s))
                }
            },
            None => None,
        }
    }
}

/// What `share_amount` shares are redeemed for.
pub fn withdrawal(
    pool_a: Balance,
    pool_b: Balance,
    total_shares: Balance,
    share_amount: Balance,
) -> (r: Option<(Balance, Balance)>)
    ensures
        r == spec_withdrawal(pool_a, pool_b, total_shares, share_amount),
        r matches Some((out_a, out_b)) ==> (share_amount <= total_shares ==> out_a <= pool_a
            && out_b <= pool_b),
{
    if total_shares == 0 || share_amount == 0 {
        return None;
    }
    let whole: Wide = Wide::from_u128(total_shares);
    let out_a: Option<Balance> = Wide::mul_div(Wide::from_u128(share_amount), pool_a, whole);
    let out_b: Option<Balance> = Wide::mul_div(Wide::from_u128(share_amount), pool_b, whole);
    proof {
        if share_amount <= total_shares {
            assert(share_amount * pool_a <= pool_a * total_shares && share_amount * pool_b <= pool_b
                * total_shares && share_amount * pool_a >= 0 && share_amount * pool_b >= 0)
                by (nonlinear_arith)
                requires
                    0 <= share_amount <= total_shares,
                    pool_a >= 0,
                    pool_b >= 0,
            ;
            lemma_quotient_at_most(share_amount * pool_a, total_shares as int, pool_a as int);
            lemma_quotient_at_most(share_amount * pool_b, total_shares as int, pool_b as int);
        }
    }
    match (out_a, out_b) {
        (Some(a), Some(b)) => Some((a, b)),
        _ => None,
    }
}

/// Shares that are not more than all shares are redeemed for no more than
/// the reserves.
pub proof fn lemma_withdrawal_within_reserves(
    pool_a: Balance,
    pool_b: Balance,
    total_shares: Balance,
    share_amount: Balance,
)
    requires
        0 < share_amount <= total_shares,
    ensures
        spec_withdrawal(pool_a, pool_b, total_shares, share_amount) matches Some((out_a, out_b))
            && out_a <= pool_a && out_b <= pool_b,
        share_amount == total_shares ==> spec_withdrawal(
            pool_a,
            pool_b,
            total_shares,
            share_amount,
        ) == Some((pool_a, pool_b)),
{
    assert(share_amount * pool_a <= pool_a * total_shares && share_amount * pool_b <= pool_b
        * total_shares && share_amount * pool_a >= 0 && share_amount * pool_b >= 0)
        by (nonlinear_arith)
        requires
            0 <= share_amount <= total_shares,
            pool_a >= 0,
            pool_b >= 0,
    ;
    lemma_quotient_at_most(share_amount * pool_a, total_shares as int, pool_a as int);
    lemma_quotient_at_most(share_amount * pool_b, total_shares as int, pool_b as int);
    if share_amount == total_shares {
        assert(share_amount * pool_a == pool_a * total_shares && share_amount * pool_b == pool_b
            * total_shares) by (nonlinear_arith)
            requires
                share_amount == total_shares,
        ;
        lemma_quotient_at_least(share_amount * pool_a, total_shares as int, pool_a as int);
        lemma_quotient_at_least(share_amount * pool_b, total_shares as int, pool_b as int);
    }
}

/// Shares that are no fewer than all shares are redeemed for no less than the
/// reserves.
pub proof fn lemma_withdrawal_of_all(
    pool_a: Balance,
    pool_b: Balance,
    total_shares: Balance,
    share_amount: Balance,
)
    requires
        0 < total_shares <= share_amount,
    ensures
        spec_withdrawal(pool_a, pool_b, total_shares, share_amount) matches Some((out_a, out_b))
            ==> out_a >= pool_a && out_b >= pool_b,
{
    assert(share_amount * pool_a >= pool_a * total_shares && share_amount * pool_b >= pool_b
        * total_shares) by (nonlinear_arith)
        requires
            0 <= total_shares <= share_amount,
            pool_a >= 0,
            pool_b >= 0,
    ;
    lemma_quotient_at_least(share_amount * pool_a, total_shares as int, pool_a as int);
    lemma_quotient_at_least(share_amount * pool_b, total_shares as int, pool_b as int);
}

/// Redeeming the shares that a provision has just minted pays out no more
/// than the provision took, of either asset.
///
/// The pool is one whose reserves are empty while it has no shares, and the
/// new reserves and the new number of shares fit in 128 bits.
pub proof fn lemma_redemption_is_bounded(
    pool_a: Balance,
    pool_b: Balance,
    total_shares: Balance,
    max_a: Balance,
    max_b: Balance,
    a_is_first: bool,
)
    requires
        spec_increment(pool_a, pool_b, total_shares, max_a, max_b, a_is_first) is Some,
        total_shares == 0 ==> pool_a == 0 && pool_b == 0,
        ({
            let (use_a, use_b, shares) = spec_increment(
                pool_a,
                pool_b,
                total_shares,
                max_a,
                max_b,
                a_is_first,
            )->Some_0;
            pool_a + use_a <= u128::MAX && pool_b + use_b <= u128::MAX && total_shares + shares
                <= u128::MAX
        }),
    ensures
        ({
            let (use_a, use_b, shares) = spec_increment(
                pool_a,
                pool_b,
                total_shares,
                max_a,
                max_b,
                a_is_first,
            )->Some_0;
            let back = spec_withdrawal(
                (pool_a + use_a) as Balance,
                (pool_b + use_b) as Balance,
                (total_shares + shares) as Balance,
                shares,
            );
            back matches Some((out_a, out_b)) && out_a <= use_a && out_b <= use_b
        }),
{
    let (use_a, use_b, shares) = spec_increment(
        pool_a,
        pool_b,
        total_shares,
        max_a,
        max_b,
        a_is_first,
    )->Some_0;
    let ra = pool_a as int;
    let rb = pool_b as int;
    let s = total_shares as int;
    let ua = use_a as int;
    let ub = use_b as int;
    let d = shares as int;
    // The shares stand to all shares no better than each amount taken stands
    // to its reserve: d * ra < (ua + 1) * s and d * rb < (ub + 1) * s.
    if total_shares == 0 {
        assert(d * ra == 0 && d * rb == 0) by (nonlinear_arith)
            requires
                ra == 0,
                rb == 0,
        ;
        assert((ua + 1) * s == 0 && (ub + 1) * s == 0) by (nonlinear_arith)
            requires
                s == 0,
        ;
        assert(d * (ra + ua) == ua * d && d * (rb + ub) == ub * d) by (nonlinear_arith)
            requires
                ra == 0,
                rb == 0,
        ;
    } else if max_a * pool_b <= max_b * pool_a {
        let x = max_a as int;
        lemma_floor_pair(x, rb, s, ra);
        assert(x * rb >= 0) by (nonlinear_arith)
            requires
                x >= 0,
                rb >= 0,
        ;
        lemma_quotient_at_most(x * rb, ra, max_b as int);
        assert(d == (x * s) / ra);
        assert(ub == (x * rb) / ra);
        assert(ua == x);
        assert(d * ra <= ua * s) by (nonlinear_arith)
            requires
                d == (x * s) / ra,
                ua == x,
                ra > 0,
        {
            assert(x * s == ra * ((x * s) / ra) + (x * s) % ra);
            assert((x * s) % ra >= 0);
        }
    } else {
        let x = max_b as int;
        lemma_floor_pair(x, ra, s, rb);
        assert(x * ra >= 0 && x * ra <= max_a * rb) by (nonlinear_arith)
            requires
                x >= 0,
                ra >= 0,
                max_a * rb > x * ra,
        ;
        lemma_quotient_at_most(x * ra, rb, max_a as int);
        assert(d == (x * s) / rb);
        assert(ua == (x * ra) / rb);
        assert(ub == x);
        assert(d * rb <= ub * s) by (nonlinear_arith)
            requires
                d == (x * s) / rb,
                ub == x,
                rb > 0,
        {
            assert(x * s == rb * ((x * s) / rb) + (x * s) % rb);
            assert((x * s) % rb >= 0);
        }
    }
    lemma_redeemed_within(d, ra, ua, s);
    lemma_redeemed_within(d, rb, ub, s);
}

/// Where `d = floor(x * s / r)` and `u = floor(x * p / r)`, then
/// `d * p < (u + 1) * s`.
proof fn lemma_floor_pair(x: int, p: int, s: int, r: int)
    by (nonlinear_arith)
    requires
        x >= 0,
        p >= 0,
        s > 0,
        r > 0,
    ensures
        ((x * s) / r) * p < ((x * p) / r + 1) * s,
{
    let d = (x * s) / r;
    let u = (x * p) / r;
    assert(x * s == r * d + (x * s) % r);
    assert(0 <= (x * s) % r < r);
    assert(x * p == r * u + (x * p) % r);
    assert(0 <= (x * p) % r < r);
    // r * d * p <= x * s * p and x * p * s < r * (u + 1) * s
    assert(r * d <= x * s);
    assert((r * d) * p <= (x * s) * p);
    assert(x * p < r * (u + 1));
    assert((x * p) * s < (r * (u + 1)) * s);
    assert((x * s) * p == (x * p) * s);
    assert((r * d) * p == r * (d * p));
    assert((r * (u + 1)) * s == r * ((u + 1) * s));
    assert(r * (d * p) < r * ((u + 1) * s));
}

/// Where `d * r < (u + 1) * s` or `d * r <= u * s`, redeeming `d` of `s + d`
/// shares against a reserve of `r + u` pays out at most `u`.
proof fn lemma_redeemed_within(d: int, r: int, u: int, s: int)
    by (nonlinear_arith)
    requires
        d > 0,
        r >= 0,
        u >= 0,
        s >= 0,
        d * r < (u + 1) * s || d * r <= u * s,
    ensures
        (d * (r + u)) / (s + d) <= u,
{
    let total = s + d;
    let q = (d * (r + u)) / total;
    assert(d * (r + u) == total * q + (d * (r + u)) % total);
    assert(0 <= (d * (r + u)) % total < total);
    assert(d * (r + u) == d * r + d * u);
    assert((u + 1) * total == (u + 1) * s + u * d + d);
    assert(u * total == u * s + u * d);
    assert(d * (r + u) < (u + 1) * total);
    if q > u {
        assert(total * q >= total * (u + 1));
    }
}

} // verus!
