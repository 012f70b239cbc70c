//! A 192-bit unsigned integer made of three 64-bit limbs, with checked
//! arithmetic that reports overflow instead of wrapping.
use vstd::prelude::*;
use crate::error::ArithmeticFailure;

verus! {

/// 2^64, the weight of one limb.
#[verifier::inline]
pub open spec fn limb() -> nat {
    0x1_0000_0000_0000_0000nat
}

/// 2^128, the weight of the top limb.
#[verifier::inline]
pub open spec fn limb2() -> nat {
    0x1_0000_0000_0000_0000_0000_0000_0000_0000nat
}

/// The largest value a `WideUint` holds: 2^192 - 1.
#[verifier::inline]
pub open spec fn wide_max() -> nat {
    0xffff_ffff_ffff_ffff_ffff_ffff_ffff_ffff_ffff_ffff_ffff_ffffnat
}

const LIMB: u128 = 0x1_0000_0000_0000_0000;

/// Unsigned integer of 192 bits, little-endian limbs.
#[derive(Clone, Copy, Debug, PartialEq, Eq, Structural)]
pub struct WideUint {
    pub lo: u64,
    pub mid: u64,
    pub hi: u64,
}

impl WideUint {
    /// The number this value stands for.
    pub open spec fn val(self) -> nat {
        self.lo as nat + self.mid as nat * limb() + self.hi as nat * limb2()
    }

    pub fn zero() -> (r: WideUint)
        ensures
            r.val() == 0,
    {
        WideUint { lo: 0, mid: 0, hi: 0 }
    }

    pub fn from_u64(x: u64) -> (r: WideUint)
        ensures
            r.val() == x,
    {
        WideUint { lo: x, mid: 0, hi: 0 }
    }

    pub fn from_u128(x: u128) -> (r: WideUint)
        ensures
            r.val() == x,
    {
        WideUint { lo: (x % LIMB) as u64, mid: (x / LIMB) as u64, hi: 0 }
    }

    /// The value as a `u64`, if it fits.
    pub fn to_u64(&self) -> (r: Option<u64>)
        ensures
            r == (if self.val() <= u64::MAX {
                Some(self.val() as u64)
            } else {
                None::<u64>
            }),
    {
        if self.mid == 0 && self.hi == 0 {
            Some(self.lo)
        } else {
            None
        }
    }

    /// The value as a `u128`, if it fits.
    pub fn to_u128(&self) -> (r: Option<u128>)
        ensures
            r == (if self.val() <= u128::MAX {
                Some(self.val() as u128)
            } else {
                None::<u128>
            }),
    {
        if self.hi == 0 {
            Some(self.lo as u128 + self.mid as u128 * LIMB)
        } else {
            None
        }
    }

    pub fn is_zero(&self) -> (r: bool)
        ensures
            r == (self.val() == 0),
    {
        self.lo == 0 && self.mid == 0 && self.hi == 0
    }

    /// `self <= other`.
    pub fn le(&self, other: &WideUint) -> (r: bool)
        ensures
            r == (self.val() <= other.val()),
    {
        if self.hi != other.hi {
            self.hi < other.hi
        } else if self.mid != other.mid {
            self.mid < other.mid
        } else {
            self.lo <= other.lo
        }
    }

    /// `self < other`.
    pub fn lt(&self, other: &WideUint) -> (r: bool)
        ensures
            r == (self.val() < other.val()),
    {
        !other.le(self)
    }

    /// The sum; fails with `Overflow` when it does not fit.
    pub fn checked_add(&self, other: &WideUint) -> (r: Result<WideUint, ArithmeticFailure>)
        ensures
            match r {
                Ok(v) => v.val() == self.val() + other.val(),
                Err(e) => e == ArithmeticFailure::Overflow && self.val() + other.val() > wide_max(),
            },
    {
        let s0: u128 = self.lo as u128 + other.lo as u128;
        let c0: u128 = s0 / LIMB;
        let s1: u128 = self.mid as u128 + other.mid as u128 + c0;
        let c1: u128 = s1 / LIMB;
        let s2: u128 = self.hi as u128 + other.hi as u128 + c1;
        if s2 >= LIMB {
            Err(ArithmeticFailure::Overflow)
        } else {
            Ok(WideUint { lo: (s0 % LIMB) as u64, mid: (s1 % LIMB) as u64, hi: s2 as u64 })
        }
    }

    /// The difference; fails with `Underflow` when it would be negative.
    pub fn checked_sub(&self, other: &WideUint) -> (r: Result<WideUint, ArithmeticFailure>)
        ensures
            match r {
                Ok(v) => v.val() == self.val() - other.val(),
                Err(e) => e == ArithmeticFailure::Underflow && self.val() < other.val(),
            },
    {
        let (r0, b0): (u64, u128) = if self.lo >= other.lo {
            (self.lo - other.lo, 0)
        } else {
            ((self.lo as u128 + LIMB - other.lo as u128) as u64, 1)
        };
        let (r1, b1): (u64, u128) = if self.mid as u128 >= other.mid as u128 + b0 {
            ((self.mid as u128 - other.mid as u128 - b0) as u64, 0)
        } else {
            ((self.mid as u128 + LIMB - other.mid as u128 - b0) as u64, 1)
        };
        if (self.hi as u128) < other.hi as u128 + b1 {
            Err(ArithmeticFailure::Underflow)
        } else {
            Ok(WideUint { lo: r0, mid: r1, hi: (self.hi as u128 - other.hi as u128 - b1) as u64 })
        }
    }

    /// Multiplies by one limb: the low 192 bits of the product, and the limb
    /// that carries out of them.
    fn mul_limb(&self, d: u64) -> (r: (WideUint, u64))
        ensures
            r.0.val() + r.1 as nat * (wide_max() + 1) == self.val() * d,
    {
        proof {
            lemma_limb_product(self.lo, d, 0);
        }
        let p0: u128 = self.lo as u128 * d as u128;
        let r0: u128 = p0 % LIMB;
        let c0: u128 = p0 / LIMB;
        proof {
            lemma_limb_product(self.mid, d, c0);
        }
        let p1: u128 = self.mid as u128 * d as u128 + c0;
        let r1: u128 = p1 % LIMB;
        let c1: u128 = p1 / LIMB;
        proof {
            lemma_limb_product(self.hi, d, c1);
        }
        let p2: u128 = self.hi as u128 * d as u128 + c1;
        let r2: u128 = p2 % LIMB;
        let c2: u128 = p2 / LIMB;
        let r = WideUint { lo: r0 as u64, mid: r1 as u64, hi: r2 as u64 };
        proof {
            lemma_mul_limb_sum(self.lo as int, self.mid as int, self.hi as int, d as int,
                p0 as int, p1 as int, p2 as int, c0 as int, c1 as int, c2 as int,
                r0 as int, r1 as int, r2 as int);
        }
        (r, c2 as u64)
    }

    /// Multiplies by 2^64 (one limb), if the product fits.
    fn shift_limb(&self) -> (r: Option<WideUint>)
        ensures
            match r {
                Some(v) => v.val() == self.val() * limb(),
                None => self.val() * limb() > wide_max(),
            },
    {
        if self.hi != 0 {
            None
        } else {
            Some(WideUint { lo: 0, mid: self.lo, hi: self.mid })
        }
    }

    /// Multiplies by 2^128 (two limbs), if the product fits.
    fn shift_two_limbs(&self) -> (r: Option<WideUint>)
        ensures
            match r {
                Some(v) => v.val() == self.val() * limb2(),
                None => self.val() * limb2() > wide_max(),
            },
    {
        if self.hi != 0 || self.mid != 0 {
            None
        } else {
            Some(WideUint { lo: 0, mid: 0, hi: self.lo })
        }
    }

    /// The product; fails with `Overflow` when it does not fit.
    pub fn checked_mul(&self, other: &WideUint) -> (r: Result<WideUint, ArithmeticFailure>)
        ensures
            match r {
                Ok(v) => v.val() == self.val() * other.val(),
                Err(e) => e == ArithmeticFailure::Overflow && self.val() * other.val() > wide_max(),
            },
    {
        let ghost a = self.val();
        proof {
            lemma_mul_by_limbs(a as int, other.lo as int, other.mid as int, other.hi as int);
        }
        let (t0, k0) = self.mul_limb(other.lo);
        let (t1, k1) = self.mul_limb(other.mid);
        let (t2, k2) = self.mul_limb(other.hi);
        proof {
            lemma_nonneg_mul(a as int, other.lo as int);
            lemma_nonneg_mul(a as int, other.mid as int);
            lemma_nonneg_mul(a as int, other.hi as int);
            lemma_nonneg_mul(a * other.mid, limb() as int);
            lemma_nonneg_mul(a * other.hi, limb2() as int);
            lemma_nonneg_mul(k0 as int, (wide_max() + 1) as int);
            lemma_nonneg_mul(k1 as int, (wide_max() + 1) as int);
            lemma_nonneg_mul(k2 as int, (wide_max() + 1) as int);
        }
        if k0 != 0 || k1 != 0 || k2 != 0 {
            proof {
                let m = (wide_max() + 1) as int;
                if k0 != 0 {
                    lemma_mul_at_least(k0 as int, m);
                }
                if k1 != 0 {
                    lemma_mul_at_least(k1 as int, m);
                    lemma_mul_at_least(limb() as int, a * other.mid);
                }
                if k2 != 0 {
                    lemma_mul_at_least(k2 as int, m);
                    lemma_mul_at_least(limb2() as int, a * other.hi);
                }
            }
            return Err(ArithmeticFailure::Overflow);
        }
        let s1 = match t1.shift_limb() {
            Some(v) => v,
            None => return Err(ArithmeticFailure::Overflow),
        };
        let s2 = match t2.shift_two_limbs() {
            Some(v) => v,
            None => return Err(ArithmeticFailure::Overflow),
        };
        match t0.checked_add(&s1) {
            Ok(u) => u.checked_add(&s2),
            Err(e) => Err(e),
        }
    }

    /// Half of the value, rounded down.
    pub fn half(&self) -> (r: WideUint)
        ensures
            r.val() == self.val() / 2,
    {
        let top: u64 = 0x8000_0000_0000_0000;
        let r = WideUint {
            lo: self.lo / 2 + (self.mid % 2) * top,
            mid: self.mid / 2 + (self.hi % 2) * top,
            hi: self.hi / 2,
        };
        proof {
            vstd::arithmetic::div_mod::lemma_fundamental_div_mod_converse(
                self.val() as int,
                2,
                r.val() as int,
                (self.lo % 2) as int,
            );
        }
        r
    }

    /// Quotient and remainder of the division by `d`; fails with
    /// `DivisionByZero` when `d` is zero.
    pub fn checked_div_rem(&self, d: &WideUint) -> (r: Result<(WideUint, WideUint), ArithmeticFailure>)
        ensures
            match r {
                Ok(qr) => d.val() > 0 && qr.0.val() == self.val() / d.val() && qr.1.val()
                    == self.val() % d.val(),
                Err(e) => e == ArithmeticFailure::DivisionByZero && d.val() == 0,
            },
    {
        if d.is_zero() {
            return Err(ArithmeticFailure::DivisionByZero);
        }
        let n = *self;
        let one = WideUint::from_u64(1);
        // multiples[i] == d * 2^i and powers[i] == 2^i, while the multiple stays within n
        let mut multiples: Vec<WideUint> = Vec::new();
        let mut powers: Vec<WideUint> = Vec::new();
        multiples.push(*d);
        powers.push(one);
        loop
            invariant
                multiples.len() == powers.len(),
                multiples.len() >= 1,
                d.val() >= 1,
                multiples[0] == *d,
                powers[0].val() == 1,
                multiples[multiples.len() - 1].val() >= 1,
                forall|k: int|
                    0 <= k < multiples.len() ==> #[trigger] multiples[k].val() == powers[k].val()
                        * d.val(),
                forall|k: int|
                    0 < k < multiples.len() ==> #[trigger] multiples[k].val() == 2 * multiples[k
                        - 1].val(),
            ensures
                multiples.len() == powers.len(),
                multiples.len() >= 1,
                multiples[0] == *d,
                forall|k: int|
                    0 <= k < multiples.len() ==> #[trigger] multiples[k].val() == powers[k].val()
                        * d.val(),
                forall|k: int|
                    0 < k < multiples.len() ==> #[trigger] multiples[k].val() == 2 * multiples[k
                        - 1].val(),
                2 * multiples[multiples.len() - 1].val() > n.val(),
            decreases wide_max() + 1 - multiples[multiples.len() - 1].val(),
        {
            let last = multiples[multiples.len() - 1];
            let last_power = powers[powers.len() - 1];
            let next = match last.checked_add(&last) {
                Ok(v) => v,
                Err(_) => break,
            };
            if n.lt(&next) {
                break;
            }
            proof {
                lemma_mul_at_least(d.val() as int, last_power.val() as int);
            }
            let next_power = match last_power.checked_add(&last_power) {
                Ok(v) => v,
                Err(e) => return Err(e),
            };
            proof {
                assert(next_power.val() * d.val() == 2 * (last_power.val() * d.val()))
                    by (nonlinear_arith)
                    requires
                        next_power.val() == 2 * last_power.val(),
                ;
            }
            multiples.push(next);
            powers.push(next_power);
        }
        let mut q = WideUint::zero();
        let mut rem = n;
        let mut i = multiples.len();
        while i > 0
            invariant
                0 <= i <= multiples.len(),
                multiples.len() == powers.len(),
                multiples.len() >= 1,
                multiples[0] == *d,
                d.val() >= 1,
                forall|k: int|
                    0 <= k < multiples.len() ==> #[trigger] multiples[k].val() == powers[k].val()
                        * d.val(),
                forall|k: int|
                    0 < k < multiples.len() ==> #[trigger] multiples[k].val() == 2 * multiples[k
                        - 1].val(),
                q.val() * d.val() + rem.val() == n.val(),
                i == multiples.len() ==> 2 * multiples[i - 1].val() > rem.val(),
                i < multiples.len() ==> multiples[i as int].val() > rem.val(),
            decreases i,
        {
            i = i - 1;
            let m = multiples[i];
            let p = powers[i];
            if m.le(&rem) {
                let new_rem = match rem.checked_sub(&m) {
                    Ok(v) => v,
                    Err(e) => return Err(e),
                };
                proof {
                    assert((q.val() + p.val()) * d.val() == q.val() * d.val() + p.val() * d.val())
                        by (nonlinear_arith);
                    lemma_mul_at_least(d.val() as int, (q.val() + p.val()) as int);
                }
                let new_q = match q.checked_add(&p) {
                    Ok(v) => v,
                    Err(e) => return Err(e),
                };
                q = new_q;
                rem = new_rem;
            }
            proof {
                if i > 0 {
                    assert(multiples[i as int].val() == 2 * multiples[i - 1].val());
                }
            }
        }
        proof {
            vstd::arithmetic::div_mod::lemma_fundamental_div_mod_converse(
                n.val() as int,
                d.val() as int,
                q.val() as int,
                rem.val() as int,
            );
        }
        Ok((q, rem))
    }

    /// The quotient of the division by `d`, rounded down; fails with
    /// `DivisionByZero` when `d` is zero.
    pub fn checked_div(&self, d: &WideUint) -> (r: Result<WideUint, ArithmeticFailure>)
        ensures
            match r {
                Ok(q) => d.val() > 0 && q.val() == self.val() / d.val(),
                Err(e) => e == ArithmeticFailure::DivisionByZero && d.val() == 0,
            },
    {
        match self.checked_div_rem(d) {
            Ok(qr) => Ok(qr.0),
            Err(e) => Err(e),
        }
    }

    /// The integer square root: the largest `r` with `r * r <= self`, found
    /// by bisection between 0 and 2^96, so in at most 96 steps.
    pub fn isqrt(&self) -> (r: WideUint)
        ensures
            r.val() * r.val() <= self.val() < (r.val() + 1) * (r.val() + 1),
    {
        let n = *self;
        let one = WideUint::from_u64(1);
        let mut low = WideUint::zero();
        // 2^96, whose square exceeds every value
        let mut high = WideUint { lo: 0, mid: 0x1_0000_0000, hi: 0 };
        proof {
            let h = high.val();
            assert(h == 0x1_0000_0000_0000_0000_0000_0000nat);
            assert(h * h == 0x1_0000_0000_0000_0000_0000_0000_0000_0000_0000_0000_0000_0000nat);
        }
        loop
            invariant
                low.val() < high.val(),
                high.val() <= 0x1_0000_0000_0000_0000_0000_0000nat,
                low.val() * low.val() <= n.val(),
                n.val() < high.val() * high.val(),
            ensures
                low.val() * low.val() <= n.val(),
                n.val() < (low.val() + 1) * (low.val() + 1),
            decreases high.val() - low.val(),
        {
            let gap = match high.checked_sub(&low) {
                Ok(g) => g.half(),
                Err(_) => return low,
            };
            if gap.is_zero() {
                break;
            }
            let mid = match low.checked_add(&gap) {
                Ok(m) => m,
                Err(_) => return low,
            };
            let fits = match mid.checked_mul(&mid) {
                Ok(sq) => sq.le(&n),
                Err(_) => false,
            };
            if fits {
                low = mid;
            } else {
                high = mid;
            }
        }
        low
    }
}

/// A limb times a limb, plus a carry below one limb, still fits in 128 bits.
proof fn lemma_limb_product(x: u64, d: u64, c: u128)
    requires
        c < limb(),
    ensures
        x as nat * d as nat + c <= u128::MAX,
{
    assert(x as nat * d as nat <= (limb() - 1) * (limb() - 1)) by (nonlinear_arith)
        requires
            x < limb(),
            d < limb(),
    ;
}

proof fn lemma_mul_limb_sum(
    a0: int, a1: int, a2: int, d: int,
    p0: int, p1: int, p2: int, c0: int, c1: int, c2: int,
    r0: int, r1: int, r2: int,
)
    requires
        p0 == a0 * d,
        p1 == a1 * d + c0,
        p2 == a2 * d + c1,
        p0 == c0 * limb() + r0,
        p1 == c1 * limb() + r1,
        p2 == c2 * limb() + r2,
    ensures
        r0 + r1 * limb() + r2 * limb2() + c2 * (wide_max() + 1)
            == (a0 + a1 * limb() + a2 * limb2()) * d,
{
    assert(r0 + r1 * limb() + r2 * limb2() + c2 * (wide_max() + 1) == (a0 + a1 * limb() + a2
        * limb2()) * d) by (nonlinear_arith)
        requires
            p0 == a0 * d,
            p1 == a1 * d + c0,
            p2 == a2 * d + c1,
            p0 == c0 * limb() + r0,
            p1 == c1 * limb() + r1,
            p2 == c2 * limb() + r2,
    ;
}

proof fn lemma_mul_by_limbs(a: int, b0: int, b1: int, b2: int)
    ensures
        a * (b0 + b1 * limb() + b2 * limb2()) == a * b0 + (a * b1) * limb() + (a * b2) * limb2(),
{
    assert(a * (b0 + b1 * limb() + b2 * limb2()) == a * b0 + (a * b1) * limb() + (a * b2)
        * limb2()) by (nonlinear_arith);
}

proof fn lemma_nonneg_mul(x: int, y: int)
    requires
        x >= 0,
        y >= 0,
    ensures
        x * y >= 0,
{
    assert(x * y >= 0) by (nonlinear_arith)
        requires
            x >= 0,
            y >= 0,
    ;
}

/// Scaling a non-negative number by a positive whole factor does not shrink it.
pub proof fn lemma_mul_at_least(k: int, x: int)
    requires
        k >= 1,
        x >= 0,
    ensures
        k * x >= x,
        x * k >= x,
{
    assert(k * x >= x && x * k >= x) by (nonlinear_arith)
        requires
            k >= 1,
            x >= 0,
    ;
}

} // verus!
