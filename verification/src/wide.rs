//! Unsigned 256-bit integers, held as two 128-bit halves.
//!
//! Pool pricing multiplies 128-bit balances by each other and by the fee
//! parts before it divides. [`Wide`] carries those products without loss, and
//! [`Wide::mul_div`] gives the exact floor of a product over a divisor.

use vstd::prelude::*;

verus! {

/// The value 2^64: the weight of the upper half of a 128-bit number.
pub const HALF_WEIGHT: u128 = 0x1_0000_0000_0000_0000;

/// The largest high half of a divisor that [`Wide::mul_div`] takes: 2^126 - 1.
pub const MAX_DIVISOR_HI: u128 = 0x3fff_ffff_ffff_ffff_ffff_ffff_ffff_ffff;

/// The value 2^128: the weight of the high half of a [`Wide`].
pub open spec fn pow2_128() -> nat {
    0x1_0000_0000_0000_0000_0000_0000_0000_0000nat
}

/// The floor of `a * b / d`, the quantity that [`Wide::mul_div`] computes.
pub open spec fn floor_mul_div(a: nat, b: nat, d: nat) -> nat
    recommends
        d > 0,
{
    (a * b) / d
}

/// An unsigned integer below 2^256.
#[derive(Clone, Copy, Debug)]
pub struct Wide {
    pub hi: u128,
    pub lo: u128,
}

/// A quotient is at least `k` once the dividend reaches `k` divisors.
pub proof fn lemma_quotient_at_least(t: int, d: int, k: int)
    by (nonlinear_arith)
    requires
        d > 0,
        t >= k * d,
    ensures
        t / d >= k,
{
    if t / d < k {
        assert(t == d * (t / d) + t % d);
        assert(0 <= t % d < d);
        assert(t / d + 1 <= k);
        assert(d * (t / d + 1) <= k * d);
        assert(d * (t / d + 1) == d * (t / d) + d);
    }
}

/// A dividend written as `q * d + r` with `0 <= r < d` has quotient `q`.
pub proof fn lemma_quotient_unique(t: int, d: int, q: int, r: int)
    requires
        d > 0,
        0 <= r < d,
        t == q * d + r,
    ensures
        t / d == q,
        t % d == r,
{
    vstd::arithmetic::div_mod::lemma_fundamental_div_mod_converse(t, d, q, r);
}

impl Wide {
    /// The number that the two halves stand for.
    pub open spec fn value(self) -> nat {
        self.hi as nat * pow2_128() + self.lo as nat
    }

    /// Widens a 128-bit number.
    pub fn from_u128(x: u128) -> (r: Wide)
        ensures
            r.value() == x,
            r.hi == 0,
            r.lo == x,
    {
        Wide { hi: 0, lo: x }
    }

    /// Whether the number is zero.
    pub fn is_zero(self) -> (r: bool)
        ensures
            r == (self.value() == 0),
    {
        self.hi == 0 && self.lo == 0
    }

    /// Whether the number is odd.
    pub fn is_odd(self) -> (r: bool)
        ensures
            r == (self.value() % 2 == 1),
    {
        self.lo % 2 == 1
    }

    /// Whether `self` is strictly below `other`.
    pub fn lt(self, other: Wide) -> (r: bool)
        ensures
            r == (self.value() < other.value()),
    {
        self.hi < other.hi || (self.hi == other.hi && self.lo < other.lo)
    }

    /// Whether `self` is at most `other`.
    pub fn le(self, other: Wide) -> (r: bool)
        ensures
            r == (self.value() <= other.value()),
    {
        self.hi < other.hi || (self.hi == other.hi && self.lo <= other.lo)
    }

    /// The sum of two numbers whose sum stays below 2^256.
    pub fn plus(self, other: Wide) -> (r: Wide)
        requires
            self.value() + other.value() < pow2_128() * pow2_128(),
        ensures
            r.value() == self.value() + other.value(),
    {
        let room: u128 = u128::MAX - self.lo;
        if other.lo > room {
            let lo: u128 = other.lo - room - 1;
            Wide { hi: self.hi + other.hi + 1, lo }
        } else {
            Wide { hi: self.hi + other.hi, lo: self.lo + other.lo }
        }
    }

    /// The difference of two numbers, the larger first.
    pub fn minus(self, other: Wide) -> (r: Wide)
        requires
            self.value() >= other.value(),
        ensures
            r.value() == self.value() - other.value(),
    {
        if self.lo >= other.lo {
            Wide { hi: self.hi - other.hi, lo: self.lo - other.lo }
        } else {
            let gap: u128 = other.lo - self.lo;
            Wide { hi: self.hi - other.hi - 1, lo: u128::MAX - gap + 1 }
        }
    }

    /// Half of the number, rounded down.
    pub fn halve(self) -> (r: Wide)
        ensures
            r.value() == self.value() / 2,
    {
        let carried: u128 = if self.hi % 2 == 1 {
            0x8000_0000_0000_0000_0000_0000_0000_0000
        } else {
            0
        };
        Wide { hi: self.hi / 2, lo: self.lo / 2 + carried }
    }

    /// The full product of two 128-bit numbers.
    pub fn product(a: u128, b: u128) -> (r: Wide)
        ensures
            r.value() == a as nat * b as nat,
    {
        let a0: u128 = a % HALF_WEIGHT;
        let a1: u128 = a / HALF_WEIGHT;
        let b0: u128 = b % HALF_WEIGHT;
        let b1: u128 = b / HALF_WEIGHT;
        proof {
            lemma_half_product_bound(a0, b0);
            lemma_half_product_bound(a0, b1);
            lemma_half_product_bound(a1, b0);
            lemma_half_product_bound(a1, b1);
        }
        let p00: u128 = a0 * b0;
        let p01: u128 = a0 * b1;
        let p10: u128 = a1 * b0;
        let p11: u128 = a1 * b1;
        let mid: u128 = p01 % HALF_WEIGHT + p10 % HALF_WEIGHT;
        let mid_lo: u128 = (mid % HALF_WEIGHT) * HALF_WEIGHT;
        let mid_hi: u128 = mid / HALF_WEIGHT;
        let upper: u128 = p11 + p01 / HALF_WEIGHT + p10 / HALF_WEIGHT + mid_hi;
        let room: u128 = u128::MAX - mid_lo;
        proof {
            lemma_split_product(a0 as int, a1 as int, b0 as int, b1 as int);
        }
        if p00 > room {
            Wide { hi: upper + 1, lo: p00 - room - 1 }
        } else {
            Wide { hi: upper, lo: mid_lo + p00 }
        }
    }

    /// The floor of `x * m / d`, or `None` where it does not fit in 128 bits.
    ///
    /// The divisor is positive and below 2^254.
    pub fn mul_div(x: Wide, m: u128, d: Wide) -> (r: Option<u128>)
        requires
            d.value() > 0,
            d.hi <= MAX_DIVISOR_HI,
        ensures
            match r {
                Some(q) => q == floor_mul_div(x.value(), m as nat, d.value()),
                None => floor_mul_div(x.value(), m as nat, d.value()) > u128::MAX,
            },
    {
        let ghost dv: int = d.value() as int;
        let ghost total: int = x.value() as int * m as int;
        let mut step_q: u128;
        let mut step_r: Wide;
        if d.hi == 0 {
            step_q = m / d.lo;
            step_r = Wide::from_u128(m % d.lo);
            proof {
                vstd::arithmetic::div_mod::lemma_fundamental_div_mod(m as int, d.lo as int);
                vstd::arithmetic::mul::lemma_mul_is_commutative(d.lo as int, (m / d.lo) as int);
            }
        } else {
            step_q = 0;
            step_r = Wide::from_u128(m);
        }
        let mut sum_q: u128 = 0;
        let mut sum_r: Wide = Wide::from_u128(0);
        let mut rest: Wide = x;
        assert(sum_q * dv + sum_r.value() + rest.value() * (step_q * dv + step_r.value()) == total)
            by (nonlinear_arith)
            requires
                sum_q == 0,
                sum_r.value() == 0,
                rest.value() == x.value(),
                step_q * dv + step_r.value() == m,
                total == x.value() as int * m as int,
        ;
        while !rest.is_zero()
            invariant
                dv == d.value(),
                dv > 0,
                d.hi <= MAX_DIVISOR_HI,
                total == x.value() as int * m as int,
                sum_r.value() < dv,
                step_r.value() < dv,
                sum_q * dv + sum_r.value() + rest.value() * (step_q * dv + step_r.value()) == total,
            decreases rest.value(),
        {
            let ghost step: int = step_q * dv + step_r.value();
            let ghost sum: int = sum_q * dv + sum_r.value();
            let ghost before: int = rest.value() as int;
            assert(step >= 0 && sum >= 0) by (nonlinear_arith)
                requires
                    step == step_q * dv + step_r.value(),
                    sum == sum_q * dv + sum_r.value(),
                    dv > 0,
            ;
            if rest.is_odd() {
                let mut part: Wide = sum_r.plus(step_r);
                let mut carry: u128 = 0;
                if !part.lt(d) {
                    part = part.minus(d);
                    carry = 1;
                }
                proof {
                    // sum + step == (sum_q + step_q + carry) * dv + part
                    assert((sum_q + step_q + carry) * dv + part.value() == sum + step)
                        by (nonlinear_arith)
                        requires
                            step == step_q * dv + step_r.value(),
                            sum == sum_q * dv + sum_r.value(),
                            part.value() + carry * dv == sum_r.value() + step_r.value(),
                    ;
                    assert(total >= sum + step) by (nonlinear_arith)
                        requires
                            total == sum + before * step,
                            before >= 1,
                            step >= 0,
                    ;
                    if sum_q + step_q + carry > u128::MAX {
                        assert(total >= (u128::MAX + 1) * dv) by (nonlinear_arith)
                            requires
                                total >= (sum_q + step_q + carry) * dv + part.value(),
                                sum_q + step_q + carry >= u128::MAX + 1,
                                dv > 0,
                        ;
                        lemma_quotient_at_least(total, dv, u128::MAX + 1);
                    }
                }
                let joined: Option<u128> = sum_q.checked_add(step_q);
                let with_carry: Option<u128> = match joined {
                    Some(j) => j.checked_add(carry),
                    None => None,
                };
                match with_carry {
                    Some(q) => {
                        sum_q = q;
                    },
                    None => {
                        return None;
                    },
                }
                sum_r = part;
            }
            let ghost sum_after: int = sum_q * dv + sum_r.value();
            rest = rest.halve();
            assert(sum_after + rest.value() * (2 * step) == total) by (nonlinear_arith)
                requires
                    sum + before * step == total,
                    before % 2 == 1 ==> sum_after == sum + step,
                    before % 2 != 1 ==> sum_after == sum,
                    rest.value() == before / 2,
                    before >= 0,
            ;
            if !rest.is_zero() {
                let mut twice: Wide = step_r.plus(step_r);
                let mut carry: u128 = 0;
                if !twice.lt(d) {
                    twice = twice.minus(d);
                    carry = 1;
                }
                proof {
                    assert((step_q + step_q + carry) * dv + twice.value() == 2 * step)
                        by (nonlinear_arith)
                        requires
                            step == step_q * dv + step_r.value(),
                            twice.value() + carry * dv == step_r.value() + step_r.value(),
                    ;
                    if step_q + step_q + carry > u128::MAX {
                        assert(total >= (u128::MAX + 1) * dv) by (nonlinear_arith)
                            requires
                                total == sum_after + rest.value() * (2 * step),
                                sum_after >= 0,
                                rest.value() >= 1,
                                2 * step == (step_q + step_q + carry) * dv + twice.value(),
                                step_q + step_q + carry >= u128::MAX + 1,
                                dv > 0,
                        ;
                        lemma_quotient_at_least(total, dv, u128::MAX + 1);
                    }
                }
                let doubled: Option<u128> = step_q.checked_add(step_q);
                let with_carry: Option<u128> = match doubled {
                    Some(j) => j.checked_add(carry),
                    None => None,
                };
                match with_carry {
                    Some(q) => {
                        step_q = q;
                    },
                    None => {
                        return None;
                    },
                }
                step_r = twice;
            } else {
                assert(sum_after + rest.value() * (step_q * dv + step_r.value()) == total)
                    by (nonlinear_arith)
                    requires
                        sum_after + rest.value() * (2 * step) == total,
                        rest.value() == 0,
                ;
            }
        }
        proof {
            assert(sum_q * dv + sum_r.value() == total) by (nonlinear_arith)
                requires
                    sum_q * dv + sum_r.value() + rest.value() * (step_q * dv + step_r.value())
                        == total,
                    rest.value() == 0,
            ;
            lemma_quotient_unique(total, dv, sum_q as int, sum_r.value() as int);
        }
        Some(sum_q)
    }
}

/// The product of two numbers below 2^64 is at most (2^64 - 1)^2.
proof fn lemma_half_product_bound(a: u128, b: u128)
    by (nonlinear_arith)
    requires
        a < HALF_WEIGHT,
        b < HALF_WEIGHT,
    ensures
        a * b <= 0xffff_ffff_ffff_fffe_0000_0000_0000_0001,
{
    assert(a * b <= 0xffff_ffff_ffff_ffff * 0xffff_ffff_ffff_ffff);
}

/// The product of two numbers, each split at 2^64, in four partial products.
proof fn lemma_split_product(a0: int, a1: int, b0: int, b1: int)
    by (nonlinear_arith)
    ensures
        (a1 * 0x1_0000_0000_0000_0000 + a0) * (b1 * 0x1_0000_0000_0000_0000 + b0) == (a1 * b1)
            * 0x1_0000_0000_0000_0000_0000_0000_0000_0000 + (a0 * b1)
            * 0x1_0000_0000_0000_0000 + (a1 * b0) * 0x1_0000_0000_0000_0000 + a0 * b0,
{
}

} // verus!
