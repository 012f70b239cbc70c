use mmoshforge::error::ArithmeticFailure;
use mmoshforge::precise::PreciseNumber;
use mmoshforge::signed::SignedPreciseNumber;
use mmoshforge::wide::WideUint;

const ONE: u128 = 1_000_000_000_000;

fn wide(x: u128) -> WideUint {
    WideUint::from_u128(x)
}

fn precise_raw(x: u128) -> PreciseNumber {
    PreciseNumber::from_raw(wide(x))
}

fn raw_of(p: &PreciseNumber) -> u128 {
    p.value.to_u128().unwrap()
}

#[test]
fn wide_add_carries_across_limbs() {
    let a = wide(u64::MAX as u128);
    let b = wide(1);
    let s = a.checked_add(&b).unwrap();
    assert_eq!(s, WideUint { lo: 0, mid: 1, hi: 0 });
    let top = WideUint { lo: u64::MAX, mid: u64::MAX, hi: 0 };
    let t = top.checked_add(&b).unwrap();
    assert_eq!(t, WideUint { lo: 0, mid: 0, hi: 1 });
}

#[test]
fn wide_add_overflow_fails() {
    let max = WideUint { lo: u64::MAX, mid: u64::MAX, hi: u64::MAX };
    assert_eq!(max.checked_add(&wide(1)), Err(ArithmeticFailure::Overflow));
    assert_eq!(max.checked_add(&wide(0)), Ok(max));
}

#[test]
fn wide_sub_borrows_and_underflow_fails() {
    let a = WideUint { lo: 0, mid: 0, hi: 1 };
    let d = a.checked_sub(&wide(1)).unwrap();
    assert_eq!(d, WideUint { lo: u64::MAX, mid: u64::MAX, hi: 0 });
    assert_eq!(wide(3).checked_sub(&wide(4)), Err(ArithmeticFailure::Underflow));
}

#[test]
fn wide_mul_is_exact() {
    let a = wide((1u128 << 64) + 3);
    let b = wide((1u128 << 64) + 5);
    let p = a.checked_mul(&b).unwrap();
    assert_eq!(p, WideUint { lo: 15, mid: 8, hi: 1 });
    assert_eq!(wide(12345).checked_mul(&wide(0)), Ok(wide(0)));
}

#[test]
fn wide_mul_overflow_fails() {
    let a = WideUint { lo: 0, mid: 0, hi: 1 };
    let b = WideUint { lo: 0, mid: 1, hi: 0 };
    assert_eq!(a.checked_mul(&b), Err(ArithmeticFailure::Overflow));
    let c = WideUint { lo: 0, mid: 0, hi: 1 << 63 };
    assert_eq!(c.checked_mul(&wide(2)), Err(ArithmeticFailure::Overflow));
    assert!(c.checked_mul(&wide(1)).is_ok());
}

#[test]
fn wide_div_rem_matches_u128() {
    let n: u128 = 0xdead_beef_cafe_babe_1234_5678_9abc_def0;
    let d: u128 = 0x1_0000_0007;
    let (q, r) = wide(n).checked_div_rem(&wide(d)).unwrap();
    assert_eq!(q.to_u128(), Some(n / d));
    assert_eq!(r.to_u128(), Some(n % d));
    let (q2, r2) = wide(7).checked_div_rem(&wide(9)).unwrap();
    assert_eq!(q2, wide(0));
    assert_eq!(r2, wide(7));
}

#[test]
fn wide_div_of_wide_value() {
    let n = WideUint { lo: 5, mid: 0, hi: 1 };
    let d = WideUint { lo: 0, mid: 1, hi: 0 };
    let q = n.checked_div(&d).unwrap();
    assert_eq!(q, WideUint { lo: 0, mid: 1, hi: 0 });
    let max = WideUint { lo: u64::MAX, mid: u64::MAX, hi: u64::MAX };
    assert_eq!(max.checked_div(&max), Ok(wide(1)));
}

#[test]
fn wide_div_by_zero_fails() {
    assert_eq!(wide(10).checked_div(&wide(0)), Err(ArithmeticFailure::DivisionByZero));
    assert_eq!(wide(10).checked_div_rem(&wide(0)), Err(ArithmeticFailure::DivisionByZero));
}

#[test]
fn wide_isqrt_rounds_down() {
    assert_eq!(wide(99).isqrt(), wide(9));
    assert_eq!(wide(100).isqrt(), wide(10));
    assert_eq!(wide(0).isqrt(), wide(0));
    assert_eq!(wide(1_000_000_000_000_000_000_000_000).isqrt(), wide(1_000_000_000_000));
    let max = WideUint { lo: u64::MAX, mid: u64::MAX, hi: u64::MAX };
    let r = max.isqrt();
    assert_eq!(r, WideUint { lo: u64::MAX, mid: u32::MAX as u64, hi: 0 });
}

#[test]
fn wide_half_and_conversions() {
    let a = WideUint { lo: 1, mid: 1, hi: 1 };
    assert_eq!(a.half(), WideUint { lo: 1 << 63, mid: 1 << 63, hi: 0 });
    assert_eq!(wide(u128::MAX).to_u128(), Some(u128::MAX));
    assert_eq!(WideUint { lo: 0, mid: 0, hi: 1 }.to_u128(), None);
    assert_eq!(wide(42).to_u64(), Some(42));
    assert_eq!(wide(1u128 << 64).to_u64(), None);
    assert!(wide(3).lt(&wide(4)));
    assert!(wide(4).le(&wide(4)));
    assert!(!wide(5).le(&wide(4)));
}

#[test]
fn precise_add_then_sub_gives_back() {
    let a = precise_raw(1_234_567_890_123_456);
    let b = precise_raw(987_654_321);
    let c = a.checked_add(&b).unwrap();
    assert_eq!(c.checked_sub(&b).unwrap(), a);
    let max = PreciseNumber::from_raw(WideUint { lo: u64::MAX, mid: u64::MAX, hi: u64::MAX });
    assert_eq!(max.checked_add(&PreciseNumber::one()), Err(ArithmeticFailure::Overflow));
    assert_eq!(b.checked_sub(&a), Err(ArithmeticFailure::Underflow));
}

#[test]
fn precise_new_scales_by_one() {
    assert_eq!(raw_of(&PreciseNumber::new(7)), 7 * ONE);
    assert_eq!(PreciseNumber::new(u128::MAX).to_u128_floor(), Some(u128::MAX));
}

#[test]
fn precise_mul_rounds_down() {
    let a = precise_raw(1_500_000_000_000);
    assert_eq!(raw_of(&a.checked_mul(&a).unwrap()), 2_250_000_000_000);
    let tiny = precise_raw(1);
    assert_eq!(raw_of(&tiny.checked_mul(&tiny).unwrap()), 0);
    let big = PreciseNumber::from_raw(WideUint { lo: 0, mid: 0, hi: 1 });
    assert_eq!(big.checked_mul(&big), Err(ArithmeticFailure::Overflow));
}

#[test]
fn precise_div_rounds_down() {
    let one = PreciseNumber::new(1);
    let three = PreciseNumber::new(3);
    assert_eq!(raw_of(&one.checked_div(&three).unwrap()), 333_333_333_333);
    assert_eq!(raw_of(&PreciseNumber::new(6).checked_div(&three).unwrap()), 2 * ONE);
    assert_eq!(one.checked_div(&PreciseNumber::zero()), Err(ArithmeticFailure::DivisionByZero));
    let big = PreciseNumber::from_raw(WideUint { lo: 0, mid: 0, hi: 1 << 50 });
    assert_eq!(big.checked_div(&one), Err(ArithmeticFailure::Overflow));
}

#[test]
fn precise_floor_and_ceiling() {
    let x = precise_raw(2_500_000_000_000);
    assert_eq!(raw_of(&x.floor()), 2 * ONE);
    assert_eq!(raw_of(&x.ceiling().unwrap()), 3 * ONE);
    let two = PreciseNumber::new(2);
    assert_eq!(two.ceiling(), Ok(two));
    assert_eq!(x.to_u128_floor(), Some(2));
    assert_eq!(x.to_u128_ceil(), Some(3));
    assert_eq!(two.to_u128_ceil(), Some(2));
}

#[test]
fn precise_pow_by_squaring() {
    let x = precise_raw(1_100_000_000_000);
    assert_eq!(raw_of(&x.checked_pow(2).unwrap()), 1_210_000_000_000);
    assert_eq!(raw_of(&PreciseNumber::new(2).checked_pow(10).unwrap()), 1024 * ONE);
    assert_eq!(raw_of(&x.checked_pow(0).unwrap()), ONE);
    assert_eq!(PreciseNumber::new(1_000_000).checked_pow(20), Err(ArithmeticFailure::Overflow));
}

#[test]
fn precise_sqrt_values() {
    assert_eq!(raw_of(&PreciseNumber::new(4).sqrt().unwrap()), 2 * ONE);
    assert_eq!(raw_of(&PreciseNumber::new(2).sqrt().unwrap()), 1_414_213_562_373);
    let fits = PreciseNumber::from_raw(WideUint { lo: 0, mid: 0, hi: 1 });
    assert_eq!(fits.sqrt(), Ok(PreciseNumber::from_raw(WideUint { lo: 0, mid: 1_000_000, hi: 0 })));
    let huge = PreciseNumber::from_raw(WideUint { lo: 0, mid: 0, hi: 1 << 50 });
    assert_eq!(huge.sqrt(), Err(ArithmeticFailure::Overflow));
}

#[test]
fn precise_sqrt_squared_is_close() {
    for raw in [1u128, 7, 999_999, ONE / 2, ONE, 2 * ONE, 123_456_789 * ONE] {
        let x = precise_raw(raw);
        let s = x.sqrt().unwrap();
        let back = raw_of(&s.checked_mul(&s).unwrap());
        assert!(back <= raw);
        let root = raw_of(&s);
        assert!((raw - back) * ONE < 2 * root + ONE);
    }
}

#[test]
fn signed_add_of_mixed_signs() {
    let two = SignedPreciseNumber::new(PreciseNumber::new(2));
    let five = SignedPreciseNumber::new(PreciseNumber::new(5));
    let r = two.checked_add(&five.negate()).unwrap();
    assert!(r.is_negative);
    assert_eq!(raw_of(&r.value), 3 * ONE);
    let back = r.checked_sub(&five.negate()).unwrap();
    assert_eq!(back.to_unsigned(), Ok(PreciseNumber::new(2)));
}

#[test]
fn signed_to_unsigned_fails_below_zero() {
    let x = SignedPreciseNumber::new(PreciseNumber::new(1)).negate();
    assert_eq!(x.to_unsigned(), Err(ArithmeticFailure::Underflow));
    let zero = SignedPreciseNumber::new(PreciseNumber::zero()).negate();
    assert_eq!(zero.to_unsigned(), Ok(PreciseNumber::zero()));
}

#[test]
fn signed_mul_and_div_signs() {
    let a = SignedPreciseNumber::new(PreciseNumber::new(3)).negate();
    let b = SignedPreciseNumber::new(PreciseNumber::new(2));
    let p = a.checked_mul(&b).unwrap();
    assert!(p.is_negative);
    assert_eq!(raw_of(&p.value), 6 * ONE);
    let q = a.checked_div(&a).unwrap();
    assert!(!q.is_negative);
    assert_eq!(raw_of(&q.value), ONE);
    assert_eq!(a.checked_div(&SignedPreciseNumber::new(PreciseNumber::zero())), Err(ArithmeticFailure::DivisionByZero));
}
