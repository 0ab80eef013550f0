//! Constant-product pricing of a single hop.
//!
//! A hop trades against one pool. `supply_pool` is the pool's reserve of the
//! asset that is paid in, `target_pool` its reserve of the asset that is paid
//! out. The fee is a fraction of what is paid in; what is left of the input
//! after the fee trades along the curve on which the product of the two
//! reserves stays the same. All products are exact: they are formed in 256
//! bits.

use crate::primitives::Balance;
use crate::wide::Wide;
use vstd::prelude::*;

verus! {

/// The fee numerator that pools use unless told otherwise.
pub const DEFAULT_FEE_NUMERATOR: u32 = 3;

/// The fee denominator that pools use unless told otherwise.
pub const DEFAULT_FEE_DENOMINATOR: u32 = 1000;

/// The fee taken from what is paid into a pool, as a fraction.
#[derive(Clone, Copy, Debug, PartialEq, Eq, Structural)]
pub struct ExchangeFee {
    pub numerator: u32,
    pub denominator: u32,
}

/// A fraction of a pool's reserve: the most that one hop may take out.
#[derive(Clone, Copy, Debug, PartialEq, Eq, Structural)]
pub struct Ratio {
    pub numerator: u128,
    pub denominator: u128,
}

impl ExchangeFee {
    /// The part of the denominator that is not fee: what is paid in counts
    /// as itself times this over the denominator.
    pub open spec fn spec_kept(self) -> nat {
        if self.denominator >= self.numerator {
            (self.denominator - self.numerator) as nat
        } else {
            0
        }
    }

    /// The fee of `numerator` parts in `denominator`.
    pub fn new(numerator: u32, denominator: u32) -> (r: ExchangeFee)
        ensures
            r == (ExchangeFee { numerator, denominator }),
    {
        ExchangeFee { numerator, denominator }
    }

    /// The part of the denominator that is not fee.
    pub fn kept(&self) -> (r: u32)
        ensures
            r == self.spec_kept(),
    {
        if self.denominator >= self.numerator {
            self.denominator - self.numerator
        } else {
            0
        }
    }
}

impl Default for ExchangeFee {
    /// Three parts in a thousand.
    fn default() -> (r: ExchangeFee)
        ensures
            r == (ExchangeFee {
                numerator: DEFAULT_FEE_NUMERATOR,
                denominator: DEFAULT_FEE_DENOMINATOR,
            }),
    {
        ExchangeFee { numerator: DEFAULT_FEE_NUMERATOR, denominator: DEFAULT_FEE_DENOMINATOR }
    }
}

impl Ratio {
    /// The fraction `numerator / denominator`: `None` where the denominator
    /// is zero.
    pub fn checked_from_rational(numerator: u128, denominator: u128) -> (r: Option<Ratio>)
        ensures
            r == (if denominator == 0 {
                None
            } else {
                Some(Ratio { numerator, denominator })
            }),
    {
        if denominator == 0 {
            None
        } else {
            Some(Ratio { numerator, denominator })
        }
    }
}

/// What a hop pays out for `supply_amount` paid in: zero where nothing is
/// paid in or a reserve is empty, else the floor of
/// `supply_amount * kept * target_pool / (supply_pool * denominator + supply_amount * kept)`.
pub open spec fn spec_get_target_amount(
    fee: ExchangeFee,
    supply_pool: Balance,
    target_pool: Balance,
    supply_amount: Balance,
) -> Balance {
    let effective = supply_amount * fee.spec_kept();
    let divisor = supply_pool * fee.denominator + effective;
    if supply_amount == 0 || supply_pool == 0 || target_pool == 0 || divisor == 0 {
        0
    } else {
        ((effective * target_pool) / divisor) as Balance
    }
}

/// What must be paid into a hop for it to pay out `target_amount`: one more
/// than the floor of
/// `supply_pool * target_amount * denominator / ((target_pool - target_amount) * kept)`.
/// It is zero where nothing is asked for, a reserve is empty, the pool cannot
/// pay that much, the fee takes everything, or the amount does not fit in
/// 128 bits.
pub open spec fn spec_get_supply_amount(
    fee: ExchangeFee,
    supply_pool: Balance,
    target_pool: Balance,
    target_amount: Balance,
) -> Balance {
    if target_amount == 0 || supply_pool == 0 || target_pool == 0 || target_amount >= target_pool
        || fee.spec_kept() == 0 {
        0
    } else {
        let needed = (supply_pool * target_amount * fee.denominator) / ((target_pool
            - target_amount) * fee.spec_kept()) + 1;
        if needed <= u128::MAX {
            needed as Balance
        } else {
            0
        }
    }
}

/// Whether `target_amount` is a larger part of `target_pool` than `limit`
/// allows. An amount that is exactly the allowed part passes.
pub open spec fn spec_exceeds_impact_limit(
    target_amount: Balance,
    target_pool: Balance,
    limit: Ratio,
) -> bool {
    target_amount * limit.denominator > limit.numerator * target_pool
}

/// A 128-bit number times a 32-bit number is below 2^160.
proof fn lemma_fee_product_bound(a: u128, b: u32)
    by (nonlinear_arith)
    ensures
        a * b <= 0xffff_ffff_ffff_ffff_ffff_ffff_ffff_ffff * 0xffff_ffff,
{
}

/// A part of a whole, scaled by a third number, is at most that number.
proof fn lemma_part_quotient_bound(part: int, other: int, scale: int)
    by (nonlinear_arith)
    requires
        part >= 0,
        other >= 0,
        scale >= 0,
        part + other > 0,
    ensures
        (part * scale) / (other + part) <= scale,
        other > 0 && scale > 0 ==> (part * scale) / (other + part) < scale,
        ((part * scale) / (other + part)) * (other + part) <= part * scale,
{
    let d = other + part;
    let q = (part * scale) / d;
    assert(part * scale == d * q + (part * scale) % d);
    assert(0 <= (part * scale) % d < d);
    assert(q * d <= part * scale);
    assert(part * scale <= d * scale);
    if q > scale {
        assert(q * d >= (scale + 1) * d);
    }
    if other > 0 && scale > 0 && q >= scale {
        assert(q * d >= scale * d);
        assert(scale * d == scale * other + scale * part);
        assert(scale * other > 0);
    }
}

/// What a hop pays out for `supply_amount` paid in.
pub fn get_target_amount(
    fee: ExchangeFee,
    supply_pool: Balance,
    target_pool: Balance,
    supply_amount: Balance,
) -> (r: Balance)
    ensures
        r == spec_get_target_amount(fee, supply_pool, target_pool, supply_amount),
        r <= target_pool,
        supply_pool > 0 && target_pool > 0 ==> r < target_pool,
{
    if supply_amount == 0 || supply_pool == 0 || target_pool == 0 {
        return 0;
    }
    let kept: u32 = fee.kept();
    let effective: Wide = Wide::product(supply_amount, kept as u128);
    let scaled_pool: Wide = Wide::product(supply_pool, fee.denominator as u128);
    proof {
        lemma_fee_product_bound(supply_amount, kept);
        lemma_fee_product_bound(supply_pool, fee.denominator);
    }
    let divisor: Wide = scaled_pool.plus(effective);
    if divisor.is_zero() {
        return 0;
    }
    proof {
        lemma_part_quotient_bound(
            effective.value() as int,
            scaled_pool.value() as int,
            target_pool as int,
        );
        assert(scaled_pool.value() > 0 ==> fee.denominator > 0) by (nonlinear_arith)
            requires
                scaled_pool.value() == supply_pool as nat * (fee.denominator as u128) as nat,
        ;
        assert(scaled_pool.value() > 0) by (nonlinear_arith)
            requires
                scaled_pool.value() == supply_pool as nat * (fee.denominator as u128) as nat,
                effective.value() == supply_amount as nat * (kept as u128) as nat,
                scaled_pool.value() + effective.value() > 0,
                kept > 0 ==> fee.denominator > 0,
                supply_pool > 0,
        ;
    }
    match Wide::mul_div(effective, target_pool, divisor) {
        Some(q) => q,
        None => 0,
    }
}

/// What must be paid into a hop for it to pay out `target_amount`.
pub fn get_supply_amount(
    fee: ExchangeFee,
    supply_pool: Balance,
    target_pool: Balance,
    target_amount: Balance,
) -> (r: Balance)
    ensures
        r == spec_get_supply_amount(fee, supply_pool, target_pool, target_amount),
{
    if target_amount == 0 || supply_pool == 0 || target_pool == 0 || target_amount >= target_pool {
        return 0;
    }
    let kept: u32 = fee.kept();
    if kept == 0 {
        return 0;
    }
    let scaled_pool: Wide = Wide::product(supply_pool, fee.denominator as u128);
    let divisor: Wide = Wide::product(target_pool - target_amount, kept as u128);
    proof {
        lemma_fee_product_bound((target_pool - target_amount) as u128, kept);
        assert(divisor.value() > 0) by (nonlinear_arith)
            requires
                divisor.value() == (target_pool - target_amount) as nat * (kept as u128) as nat,
                target_pool - target_amount > 0,
                kept > 0,
        ;
        assert(scaled_pool.value() * target_amount as nat == supply_pool * target_amount
            * fee.denominator) by (nonlinear_arith)
            requires
                scaled_pool.value() == supply_pool as nat * (fee.denominator as u128) as nat,
        ;
    }
    match Wide::mul_div(scaled_pool, target_amount, divisor) {
        Some(q) => match q.checked_add(1) {
            Some(needed) => needed,
            None => 0,
        },
        None => 0,
    }
}

/// Whether `target_amount` is a larger part of `target_pool` than `limit`
/// allows.
pub fn exceeds_impact_limit(target_amount: Balance, target_pool: Balance, limit: Ratio) -> (r: bool)
    ensures
        r == spec_exceeds_impact_limit(target_amount, target_pool, limit),
{
    let taken: Wide = Wide::product(target_amount, limit.denominator);
    let allowed: Wide = Wide::product(limit.numerator, target_pool);
    allowed.lt(taken)
}

/// A hop that is paid `supply_amount` and pays out what
/// [`spec_get_target_amount`] gives leaves the product of the two reserves
/// at least as large as it was, and larger where a fee is taken, something is
/// paid in and the target reserve is not empty.
pub proof fn lemma_exact_supply_hop_keeps_product(
    fee: ExchangeFee,
    supply_pool: Balance,
    target_pool: Balance,
    supply_amount: Balance,
)
    ensures
        spec_get_target_amount(fee, supply_pool, target_pool, supply_amount) <= target_pool,
        (supply_pool + supply_amount) * (target_pool - spec_get_target_amount(
            fee,
            supply_pool,
            target_pool,
            supply_amount,
        )) >= supply_pool * target_pool,
        fee.numerator > 0 && supply_amount > 0 && target_pool > 0 ==> (supply_pool + supply_amount)
            * (target_pool - spec_get_target_amount(fee, supply_pool, target_pool, supply_amount))
            > supply_pool * target_pool,
{
    let s = supply_pool as int;
    let t = target_pool as int;
    let dx = supply_amount as int;
    let g = fee.spec_kept() as int;
    let fd = fee.denominator as int;
    let fnum = fee.numerator as int;
    let effective = dx * g;
    let divisor = s * fd + effective;
    let dy = spec_get_target_amount(fee, supply_pool, target_pool, supply_amount) as int;
    assert(effective >= 0 && s * fd >= 0) by (nonlinear_arith)
        requires
            effective == dx * g,
            dx >= 0,
            g >= 0,
            s >= 0,
            fd >= 0,
    ;
    if supply_amount == 0 || supply_pool == 0 || target_pool == 0 || divisor == 0 {
        assert(dy == 0);
        assert((s + dx) * t >= s * t) by (nonlinear_arith)
            requires
                s >= 0,
                dx >= 0,
                t >= 0,
        ;
        assert(dx > 0 && t > 0 ==> (s + dx) * t > s * t) by (nonlinear_arith)
            requires
                s >= 0,
                dx >= 0,
                t >= 0,
        ;
    } else {
        lemma_part_quotient_bound(effective, s * fd, t);
        let q = (effective * t) / divisor;
        assert(divisor == s * fd + effective);
        assert(q <= t);
        assert(dy == q);
        assert(s * fd > 0 && fd > 0) by (nonlinear_arith)
            requires
                divisor == s * fd + dx * g,
                divisor != 0,
                s > 0,
                fd >= 0,
                g >= 0,
                g > 0 ==> fd > 0,
                dx >= 0,
        ;
        assert(dy < t);
        assert(fd == g + fnum || g == 0);
        // dy * (s * fd + dx * g) <= dx * g * t
        assert((s + dx) * (t - dy) >= s * t && (fnum > 0 ==> (s + dx) * (t - dy) > s * t))
            by (nonlinear_arith)
            requires
                dy * (s * fd + dx * g) <= (dx * g) * t,
                0 <= dy < t,
                fd > 0,
                g >= 0,
                fnum >= 0,
                fd >= g,
                fnum > 0 ==> fd > g,
                s > 0,
                dx > 0,
        {
            // fd * (dx * t - dy * (s + dx)) >= dx * t * (fd - g) - dy * dx * (fd - g) >= 0
            assert(fd * (dx * t - dy * (s + dx)) == (dx * g * t - dy * (s * fd + dx * g)) + (fd - g)
                * (dx * (t - dy)));
            assert((fd - g) * (dx * (t - dy)) >= 0);
            assert(fd > g ==> (fd - g) * (dx * (t - dy)) > 0);
            assert(fd * (dx * t - dy * (s + dx)) >= 0);
            assert(dx * t - dy * (s + dx) >= 0);
            assert(fd > g ==> dx * t - dy * (s + dx) > 0);
            assert((s + dx) * (t - dy) == s * t + (dx * t - dy * (s + dx)));
        }
    }
}

/// A hop that pays out `target_amount` and is paid what
/// [`spec_get_supply_amount`] gives, where that is not zero, leaves the
/// product of the two reserves larger than it was.
pub proof fn lemma_exact_target_hop_grows_product(
    fee: ExchangeFee,
    supply_pool: Balance,
    target_pool: Balance,
    target_amount: Balance,
)
    requires
        spec_get_supply_amount(fee, supply_pool, target_pool, target_amount) > 0,
    ensures
        target_amount < target_pool,
        (supply_pool + spec_get_supply_amount(fee, supply_pool, target_pool, target_amount)) * (
        target_pool - target_amount) > supply_pool * target_pool,
{
    let s = supply_pool as int;
    let t = target_pool as int;
    let dy = target_amount as int;
    let g = fee.spec_kept() as int;
    let fd = fee.denominator as int;
    let dx = spec_get_supply_amount(fee, supply_pool, target_pool, target_amount) as int;
    lemma_supply_amount_covers(fee, supply_pool, target_pool, target_amount);
    assert((s + dx) * (t - dy) > s * t) by (nonlinear_arith)
        requires
            dx * ((t - dy) * g) > (s * dy) * fd,
            fd >= g,
            g > 0,
            s > 0,
            0 < dy < t,
            dx > 0,
    {
        assert((s * dy) * fd >= (s * dy) * g);
        assert(dx * ((t - dy) * g) == (dx * (t - dy)) * g);
        assert((dx * (t - dy)) * g > (s * dy) * g);
        assert(dx * (t - dy) > s * dy);
        assert((s + dx) * (t - dy) == s * t + (dx * (t - dy) - s * dy));
    }
}

/// A supply amount that is not zero more than covers the quotient that it
/// was rounded up from.
proof fn lemma_supply_amount_covers(
    fee: ExchangeFee,
    supply_pool: Balance,
    target_pool: Balance,
    target_amount: Balance,
)
    requires
        spec_get_supply_amount(fee, supply_pool, target_pool, target_amount) > 0,
    ensures
        0 < target_amount < target_pool,
        supply_pool > 0,
        fee.spec_kept() > 0,
        fee.denominator >= fee.spec_kept(),
        spec_get_supply_amount(fee, supply_pool, target_pool, target_amount) * ((target_pool
            - target_amount) * fee.spec_kept()) > (supply_pool * target_amount) * fee.denominator,
{
    let s = supply_pool as int;
    let t = target_pool as int;
    let dy = target_amount as int;
    let g = fee.spec_kept() as int;
    let fd = fee.denominator as int;
    let dividend = s * dy * fd;
    let divisor = (t - dy) * g;
    let dx = spec_get_supply_amount(fee, supply_pool, target_pool, target_amount) as int;
    assert(divisor > 0) by (nonlinear_arith)
        requires
            divisor == (t - dy) * g,
            t - dy > 0,
            g > 0,
    ;
    assert(dx == dividend / divisor + 1);
    assert(dx * divisor > dividend) by (nonlinear_arith)
        requires
            dx == dividend / divisor + 1,
            divisor > 0,
    {
        assert(dividend == divisor * (dividend / divisor) + dividend % divisor);
        assert(0 <= dividend % divisor < divisor);
        assert(dx * divisor == (dividend / divisor) * divisor + divisor);
    }
}

/// The two prices are inverse to each other up to rounding: paying what
/// [`spec_get_supply_amount`] asks for `target_amount`, where that is not
/// zero, pays out at least `target_amount`.
pub proof fn lemma_pricing_inverse(
    fee: ExchangeFee,
    supply_pool: Balance,
    target_pool: Balance,
    target_amount: Balance,
)
    requires
        0 < target_amount < target_pool,
        spec_get_supply_amount(fee, supply_pool, target_pool, target_amount) > 0,
    ensures
        spec_get_target_amount(
            fee,
            supply_pool,
            target_pool,
            spec_get_supply_amount(fee, supply_pool, target_pool, target_amount),
        ) >= target_amount,
{
    let s = supply_pool as int;
    let t = target_pool as int;
    let dy = target_amount as int;
    let g = fee.spec_kept() as int;
    let fd = fee.denominator as int;
    let dx = spec_get_supply_amount(fee, supply_pool, target_pool, target_amount) as int;
    lemma_supply_amount_covers(fee, supply_pool, target_pool, target_amount);
    let effective = dx * g;
    let divisor = s * fd + effective;
    assert(effective > 0 && s * fd > 0 && divisor > 0) by (nonlinear_arith)
        requires
            effective == dx * g,
            divisor == s * fd + effective,
            dx > 0,
            g > 0,
            s > 0,
            fd >= g,
    ;
    // dy * divisor <= effective * t
    assert(dy * divisor <= effective * t) by (nonlinear_arith)
        requires
            dx * ((t - dy) * g) > (s * dy) * fd,
            effective == dx * g,
            divisor == s * fd + effective,
    {
        assert(dx * ((t - dy) * g) == (dx * g) * t - (dx * g) * dy);
        assert(dy * (s * fd + dx * g) == (s * dy) * fd + (dx * g) * dy);
    }
    crate::wide::lemma_quotient_at_least(effective * t, divisor, dy);
    lemma_part_quotient_bound(effective, s * fd, t);
}

} // verus!
