//! Unsigned fixed-point numbers with twelve decimal places, backed by
//! `WideUint`. Every operation rounds its exact result down to the nearest
//! representable value and reports overflow instead of wrapping.
use vstd::prelude::*;
use crate::error::ArithmeticFailure;
use crate::wide::{WideUint, wide_max};

verus! {

/// The scale: a `PreciseNumber` of raw value `one()` stands for 1.
#[verifier::inline]
pub open spec fn one() -> nat {
    1_000_000_000_000nat
}

const ONE: u64 = 1_000_000_000_000;

/// `a / d` rounded up.
pub open spec fn ceil_div(a: nat, d: nat) -> nat
    recommends
        d > 0,
{
    ((a + d - 1) / d as int) as nat
}

/// Sum of two raw values, if it is representable.
pub open spec fn add_spec(a: nat, b: nat) -> Option<nat> {
    if a + b <= wide_max() {
        Some(a + b)
    } else {
        None
    }
}

/// Difference of two raw values, if it is not negative.
pub open spec fn sub_spec(a: nat, b: nat) -> Option<nat> {
    if b <= a {
        Some((a - b) as nat)
    } else {
        None
    }
}

/// Fixed-point product, rounded down; fails when the raw product overflows.
pub open spec fn mul_spec(a: nat, b: nat) -> Option<nat> {
    if a * b <= wide_max() {
        Some(a * b / one())
    } else {
        None
    }
}

/// Fixed-point quotient, rounded down; fails on a zero divisor or when the
/// rescaled dividend overflows.
pub open spec fn div_spec(a: nat, b: nat) -> Option<nat> {
    if b > 0 && a * one() <= wide_max() {
        Some(a * one() / b)
    } else {
        None
    }
}

/// Power by repeated squaring, each product rounded down as `mul_spec` does.
pub open spec fn pow_spec(a: nat, e: nat) -> Option<nat>
    decreases e,
{
    if e == 0 {
        Some(one())
    } else {
        match pow_spec(a, e / 2) {
            None => None,
            Some(h) => match mul_spec(h, h) {
                None => None,
                Some(sq) => if e % 2 == 1 {
                    mul_spec(sq, a)
                } else {
                    Some(sq)
                },
            },
        }
    }
}

/// `s` is the fixed-point square root of `x`, rounded down.
pub open spec fn is_sqrt_of(s: nat, x: nat) -> bool {
    s * s <= x * one() && x * one() < (s + 1) * (s + 1)
}

/// The raw value of an optional result.
pub open spec fn raw(r: Option<PreciseNumber>) -> Option<nat> {
    match r {
        Some(v) => Some(v.val()),
        None => None,
    }
}

/// A non-negative fixed-point number: `value` counts units of 10^-12.
#[derive(Clone, Copy, Debug, PartialEq, Eq, Structural)]
pub struct PreciseNumber {
    pub value: WideUint,
}

impl PreciseNumber {
    /// The raw value, in units of 10^-12.
    pub open spec fn val(self) -> nat {
        self.value.val()
    }

    fn one_wide() -> (r: WideUint)
        ensures
            r.val() == one(),
    {
        WideUint::from_u64(ONE)
    }

    pub fn zero() -> (r: PreciseNumber)
        ensures
            r.val() == 0,
    {
        PreciseNumber { value: WideUint::zero() }
    }

    pub fn one() -> (r: PreciseNumber)
        ensures
            r.val() == one(),
    {
        PreciseNumber { value: Self::one_wide() }
    }

    /// The whole number `x`.
    pub fn new(x: u128) -> (r: PreciseNumber)
        ensures
            r.val() == x * one(),
    {
        let w = WideUint::from_u128(x);
        assert(x * one() <= wide_max()) by (nonlinear_arith)
            requires
                x <= u128::MAX,
        ;
        match w.checked_mul(&Self::one_wide()) {
            Ok(v) => PreciseNumber { value: v },
            Err(_) => PreciseNumber { value: w },
        }
    }

    /// The number whose raw value is `value` (units of 10^-12).
    pub fn from_raw(value: WideUint) -> (r: PreciseNumber)
        ensures
            r.val() == value.val(),
    {
        PreciseNumber { value }
    }

    /// The whole part, as a `u128`, if it fits.
    pub fn to_u128_floor(&self) -> (r: Option<u128>)
        ensures
            r == (if self.val() / one() <= u128::MAX {
                Some((self.val() / one()) as u128)
            } else {
                None::<u128>
            }),
    {
        match self.value.checked_div(&Self::one_wide()) {
            Ok(q) => q.to_u128(),
            Err(_) => None,
        }
    }

    /// The value rounded up to a whole number, as a `u128`, if it fits.
    pub fn to_u128_ceil(&self) -> (r: Option<u128>)
        ensures
            r == (if ceil_div(self.val(), one()) <= u128::MAX {
                Some((ceil_div(self.val(), one())) as u128)
            } else {
                None::<u128>
            }),
    {
        let (q, rem) = match self.value.checked_div_rem(&Self::one_wide()) {
            Ok(qr) => qr,
            Err(_) => return None,
        };
        proof {
            lemma_ceil_div_parts(self.val(), one(), q.val(), rem.val());
        }
        match q.to_u128() {
            Some(q) => {
                if rem.is_zero() {
                    Some(q)
                } else if q < u128::MAX {
                    Some(q + 1)
                } else {
                    None
                }
            },
            None => None,
        }
    }

    pub fn le(&self, other: &PreciseNumber) -> (r: bool)
        ensures
            r == (self.val() <= other.val()),
    {
        self.value.le(&other.value)
    }

    pub fn lt(&self, other: &PreciseNumber) -> (r: bool)
        ensures
            r == (self.val() < other.val()),
    {
        self.value.lt(&other.value)
    }

    /// The sum; fails with `Overflow` when it is not representable.
    pub fn checked_add(&self, other: &PreciseNumber) -> (r: Result<PreciseNumber, ArithmeticFailure>)
        ensures
            match r {
                Ok(v) => add_spec(self.val(), other.val()) == Some(v.val()),
                Err(e) => add_spec(self.val(), other.val()) is None && e
                    == ArithmeticFailure::Overflow,
            },
    {
        match self.value.checked_add(&other.value) {
            Ok(v) => Ok(PreciseNumber { value: v }),
            Err(e) => Err(e),
        }
    }

    /// The difference; fails with `Underflow` when it would be negative.
    pub fn checked_sub(&self, other: &PreciseNumber) -> (r: Result<PreciseNumber, ArithmeticFailure>)
        ensures
            match r {
                Ok(v) => sub_spec(self.val(), other.val()) == Some(v.val()),
                Err(e) => sub_spec(self.val(), other.val()) is None && e
                    == ArithmeticFailure::Underflow,
            },
    {
        match self.value.checked_sub(&other.value) {
            Ok(v) => Ok(PreciseNumber { value: v }),
            Err(e) => Err(e),
        }
    }

    /// The product, rounded down; fails with `Overflow` when the raw product
    /// does not fit.
    pub fn checked_mul(&self, other: &PreciseNumber) -> (r: Result<PreciseNumber, ArithmeticFailure>)
        ensures
            match r {
                Ok(v) => mul_spec(self.val(), other.val()) == Some(v.val()),
                Err(e) => mul_spec(self.val(), other.val()) is None && e
                    == ArithmeticFailure::Overflow,
            },
    {
        let p = match self.value.checked_mul(&other.value) {
            Ok(p) => p,
            Err(e) => return Err(e),
        };
        match p.checked_div(&Self::one_wide()) {
            Ok(q) => Ok(PreciseNumber { value: q }),
            Err(e) => Err(e),
        }
    }

    /// The quotient, rounded down; fails with `DivisionByZero` on a zero
    /// divisor and with `Overflow` when the rescaled dividend does not fit.
    pub fn checked_div(&self, other: &PreciseNumber) -> (r: Result<PreciseNumber, ArithmeticFailure>)
        ensures
            match r {
                Ok(v) => div_spec(self.val(), other.val()) == Some(v.val()),
                Err(e) => div_spec(self.val(), other.val()) is None && e == (if other.val() == 0 {
                    ArithmeticFailure::DivisionByZero
                } else {
                    ArithmeticFailure::Overflow
                }),
            },
    {
        if other.value.is_zero() {
            return Err(ArithmeticFailure::DivisionByZero);
        }
        let p = match self.value.checked_mul(&Self::one_wide()) {
            Ok(p) => p,
            Err(e) => return Err(e),
        };
        match p.checked_div(&other.value) {
            Ok(q) => Ok(PreciseNumber { value: q }),
            Err(e) => Err(e),
        }
    }

    /// The largest whole number not above the value.
    pub fn floor(&self) -> (r: PreciseNumber)
        ensures
            r.val() == self.val() / one() * one(),
    {
        let q = match self.value.checked_div(&Self::one_wide()) {
            Ok(q) => q,
            Err(_) => return *self,
        };
        proof {
            vstd::arithmetic::div_mod::lemma_fundamental_div_mod(self.val() as int, one() as int);
        }
        match q.checked_mul(&Self::one_wide()) {
            Ok(v) => PreciseNumber { value: v },
            Err(_) => *self,
        }
    }

    /// The smallest whole number not below the value; fails with `Overflow`
    /// when it is not representable.
    pub fn ceiling(&self) -> (r: Result<PreciseNumber, ArithmeticFailure>)
        ensures
            match r {
                Ok(v) => v.val() == ceil_div(self.val(), one()) * one(),
                Err(e) => e == ArithmeticFailure::Overflow && ceil_div(self.val(), one()) * one()
                    > wide_max(),
            },
    {
        let (q, rem) = match self.value.checked_div_rem(&Self::one_wide()) {
            Ok(qr) => qr,
            Err(_) => return Err(ArithmeticFailure::Overflow),
        };
        proof {
            lemma_ceil_div_parts(self.val(), one(), q.val(), rem.val());
        }
        let whole = if rem.is_zero() {
            q
        } else {
            match q.checked_add(&WideUint::from_u64(1)) {
                Ok(v) => v,
                Err(e) => return Err(e),
            }
        };
        match whole.checked_mul(&Self::one_wide()) {
            Ok(v) => Ok(PreciseNumber { value: v }),
            Err(e) => Err(e),
        }
    }

    /// The value raised to `exp`, by repeated squaring; fails with `Overflow`
    /// when a product along the way does not fit.
    pub fn checked_pow(&self, exp: u32) -> (r: Result<PreciseNumber, ArithmeticFailure>)
        ensures
            match r {
                Ok(v) => pow_spec(self.val(), exp as nat) == Some(v.val()),
                Err(e) => pow_spec(self.val(), exp as nat) is None && e
                    == ArithmeticFailure::Overflow,
            },
        decreases exp,
    {
        if exp == 0 {
            return Ok(Self::one());
        }
        let half = match self.checked_pow(exp / 2) {
            Ok(h) => h,
            Err(e) => return Err(e),
        };
        let sq = match half.checked_mul(&half) {
            Ok(s) => s,
            Err(e) => return Err(e),
        };
        if exp % 2 == 1 {
            sq.checked_mul(self)
        } else {
            Ok(sq)
        }
    }

    /// The square root, rounded down; fails with `Overflow` when the
    /// rescaled value does not fit.
    pub fn sqrt(&self) -> (r: Result<PreciseNumber, ArithmeticFailure>)
        ensures
            match r {
                Ok(s) => is_sqrt_of(s.val(), self.val()),
                Err(e) => e == ArithmeticFailure::Overflow && self.val() * one() > wide_max(),
            },
    {
        match self.value.checked_mul(&Self::one_wide()) {
            Ok(scaled) => Ok(PreciseNumber { value: scaled.isqrt() }),
            Err(e) => Err(e),
        }
    }
}

/// Subtracting what was just added gives back the first operand exactly;
/// the addition itself fails only when the sum is not representable.
pub proof fn lemma_add_then_sub(a: PreciseNumber, b: PreciseNumber)
    ensures
        add_spec(a.val(), b.val()) is None <==> a.val() + b.val() > wide_max(),
        match add_spec(a.val(), b.val()) {
            Some(c) => sub_spec(c, b.val()) == Some(a.val()),
            None => true,
        },
{
}

/// If `s` is the square root of `x`, then `s * s` stays at or below `x` and
/// falls short of it by less than `2 * s / 10^12 + 1` raw units; for `x` up
/// to 1 that is at most two units.
pub proof fn lemma_sqrt_squared(s: PreciseNumber, x: PreciseNumber)
    requires
        x.val() * one() <= wide_max(),
        is_sqrt_of(s.val(), x.val()),
    ensures
        mul_spec(s.val(), s.val()) is Some,
        mul_spec(s.val(), s.val()).unwrap() <= x.val(),
        (x.val() - mul_spec(s.val(), s.val()).unwrap()) * one() < 2 * s.val() + one(),
        x.val() <= one() ==> x.val() - mul_spec(s.val(), s.val()).unwrap() <= 2,
{
    let sv = s.val();
    let xv = x.val();
    let sq = sv * sv;
    let m = sq / one();
    vstd::arithmetic::div_mod::lemma_fundamental_div_mod(sq as int, one() as int);
    assert(m * one() <= sq);
    assert((sv + 1) * (sv + 1) == sq + 2 * sv + 1) by (nonlinear_arith)
        requires
            sq == sv * sv,
    ;
    assert(m <= xv) by (nonlinear_arith)
        requires
            m * one() <= sq,
            sq <= xv * one(),
    ;
    assert((xv - m) * one() == xv * one() - m * one()) by (nonlinear_arith);
    if xv <= one() {
        assert(sv <= one()) by (nonlinear_arith)
            requires
                sv * sv <= xv * one(),
                xv <= one(),
        ;
        assert(xv - m <= 2) by (nonlinear_arith)
            requires
                (xv - m) * one() < 2 * sv + one(),
                sv <= one(),
        ;
    }
}

/// Rounding a quotient up adds one exactly when the division leaves a remainder.
pub proof fn lemma_ceil_div_parts(n: nat, d: nat, q: nat, rem: nat)
    requires
        d > 0,
        q == n / d,
        rem == n % d,
    ensures
        ceil_div(n, d) == if rem == 0 {
            q
        } else {
            q + 1
        },
{
    vstd::arithmetic::div_mod::lemma_fundamental_div_mod(n as int, d as int);
    if rem == 0 {
        vstd::arithmetic::div_mod::lemma_fundamental_div_mod_converse(
            (n + d - 1) as int,
            d as int,
            q as int,
            (d - 1) as int,
        );
    } else {
        assert((q + 1) * d == d * q + d) by (nonlinear_arith);
        vstd::arithmetic::div_mod::lemma_fundamental_div_mod_converse(
            (n + d - 1) as int,
            d as int,
            (q + 1) as int,
            (rem - 1) as int,
        );
    }
}

} // verus!
