//! Fixed-point numbers with a sign, for intermediate terms that may fall
//! below zero before they are combined.
use vstd::prelude::*;
use crate::precise::{PreciseNumber, mul_spec, div_spec};
use crate::error::ArithmeticFailure;
use crate::wide::wide_max;

verus! {

/// The integer with magnitude `mag`, negated when `neg` holds.
pub open spec fn signed(neg: bool, mag: nat) -> int {
    if neg {
        -mag
    } else {
        mag as int
    }
}

pub open spec fn magnitude(x: int) -> nat {
    if x < 0 {
        (-x) as nat
    } else {
        x as nat
    }
}

/// A `PreciseNumber` with a sign. Zero may carry either sign.
#[derive(Clone, Copy, Debug, PartialEq, Eq, Structural)]
pub struct SignedPreciseNumber {
    pub value: PreciseNumber,
    pub is_negative: bool,
}

impl SignedPreciseNumber {
    /// The raw value, in units of 10^-12, with its sign.
    pub open spec fn sval(self) -> int {
        signed(self.is_negative, self.value.val())
    }

    pub fn new(value: PreciseNumber) -> (r: SignedPreciseNumber)
        ensures
            r.sval() == value.val(),
    {
        SignedPreciseNumber { value, is_negative: false }
    }

    pub fn negate(&self) -> (r: SignedPreciseNumber)
        ensures
            r.sval() == -self.sval(),
    {
        SignedPreciseNumber { value: self.value, is_negative: !self.is_negative }
    }

    /// The sum; fails with `Overflow` when its magnitude does not fit.
    pub fn checked_add(&self, other: &SignedPreciseNumber) -> (r: Result<SignedPreciseNumber, ArithmeticFailure>)
        ensures
            match r {
                Ok(v) => v.sval() == self.sval() + other.sval(),
                Err(e) => e == ArithmeticFailure::Overflow && magnitude(self.sval() + other.sval())
                    > wide_max(),
            },
    {
        let (magnitude, is_negative) = if self.is_negative == other.is_negative {
            match self.value.checked_add(&other.value) {
                Ok(v) => (v, self.is_negative),
                Err(e) => return Err(e),
            }
        } else if other.value.le(&self.value) {
            match self.value.checked_sub(&other.value) {
                Ok(v) => (v, self.is_negative),
                Err(e) => return Err(e),
            }
        } else {
            match other.value.checked_sub(&self.value) {
                Ok(v) => (v, other.is_negative),
                Err(e) => return Err(e),
            }
        };
        Ok(SignedPreciseNumber { value: magnitude, is_negative })
    }

    /// The difference; fails with `Overflow` when its magnitude does not fit.
    pub fn checked_sub(&self, other: &SignedPreciseNumber) -> (r: Result<SignedPreciseNumber, ArithmeticFailure>)
        ensures
            match r {
                Ok(v) => v.sval() == self.sval() - other.sval(),
                Err(e) => e == ArithmeticFailure::Overflow && magnitude(self.sval() - other.sval())
                    > wide_max(),
            },
    {
        self.checked_add(&other.negate())
    }

    /// Product: the magnitude is that of `PreciseNumber::checked_mul`, the
    /// sign is negative when exactly one factor is.
    pub fn checked_mul(&self, other: &SignedPreciseNumber) -> (r: Result<SignedPreciseNumber, ArithmeticFailure>)
        ensures
            match mul_spec(magnitude(self.sval()), magnitude(other.sval())) {
                Some(m) => r is Ok && r.unwrap().sval() == signed(
                    (self.sval() < 0) != (other.sval() < 0),
                    m,
                ),
                None => r == Err::<SignedPreciseNumber, ArithmeticFailure>(
                    ArithmeticFailure::Overflow,
                ),
            },
    {
        proof {
            let a = self.value.val();
            let b = other.value.val();
            assert(a == 0 || b == 0 ==> a * b == 0) by (nonlinear_arith);
        }
        match self.value.checked_mul(&other.value) {
            Ok(v) => Ok(
                SignedPreciseNumber { value: v, is_negative: self.is_negative != other.is_negative },
            ),
            Err(e) => Err(e),
        }
    }

    /// Quotient: the magnitude is that of `PreciseNumber::checked_div`, the
    /// sign is negative when exactly one operand is; it fails as that does.
    pub fn checked_div(&self, other: &SignedPreciseNumber) -> (r: Result<SignedPreciseNumber, ArithmeticFailure>)
        ensures
            match div_spec(magnitude(self.sval()), magnitude(other.sval())) {
                Some(m) => r is Ok && r.unwrap().sval() == signed(
                    (self.sval() < 0) != (other.sval() < 0),
                    m,
                ),
                None => r == Err::<SignedPreciseNumber, ArithmeticFailure>(
                    if other.sval() == 0 {
                        ArithmeticFailure::DivisionByZero
                    } else {
                        ArithmeticFailure::Overflow
                    },
                ),
            },
    {
        match self.value.checked_div(&other.value) {
            Ok(v) => Ok(
                SignedPreciseNumber { value: v, is_negative: self.is_negative != other.is_negative },
            ),
            Err(e) => Err(e),
        }
    }

    /// The value as an unsigned number; fails with `Underflow` when it is
    /// below zero.
    pub fn to_unsigned(&self) -> (r: Result<PreciseNumber, ArithmeticFailure>)
        ensures
            match r {
                Ok(v) => v.val() == self.sval(),
                Err(e) => e == ArithmeticFailure::Underflow && self.sval() < 0,
            },
    {
        if self.is_negative && !self.value.value.is_zero() {
            Err(ArithmeticFailure::Underflow)
        } else {
            Ok(self.value)
        }
    }
}

} // verus!
