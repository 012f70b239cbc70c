use mmoshforge::curve::{Curve, Segment};
use mmoshforge::precise::PreciseNumber;
use mmoshforge::wide::WideUint;

fn precise_raw(x: u128) -> PreciseNumber {
    PreciseNumber::from_raw(WideUint::from_u128(x))
}

fn scenario_curve() -> Curve {
    // price(s) = 1 + 0.0001 * s
    Curve::Linear { intercept: PreciseNumber::new(1), slope: precise_raw(100_000_000) }
}

#[test]
fn linear_curve_cost_of_first_thousand() {
    let c = scenario_curve();
    assert_eq!(c.cost(0, 1000), Some(1050));
    assert_eq!(c.backing_at(1000), Some(1050));
    assert_eq!(c.backing_at(0), Some(0));
}

#[test]
fn linear_backing_rounds_up() {
    // price(s) = 0.5: one unit is backed by half a reserve unit, rounded up
    let c = Curve::Linear { intercept: precise_raw(500_000_000_000), slope: PreciseNumber::zero() };
    assert_eq!(c.backing_at(1), Some(1));
    assert_eq!(c.backing_at(2), Some(1));
    assert_eq!(c.backing_at(3), Some(2));
    assert_eq!(c.cost(1, 3), Some(1));
}

#[test]
fn linear_price_never_falls() {
    let c = scenario_curve();
    let mut last = c.price(0).unwrap();
    for s in [1u64, 2, 10, 999, 1000, 123_456, u64::MAX] {
        let p = c.price(s).unwrap();
        assert!(last.le(&p));
        last = p;
    }
    assert_eq!(c.price(1000).unwrap(), precise_raw(1_100_000_000_000));
}

#[test]
fn exponential_price_and_backing() {
    // price(s) = 1 + s^2, so the backing of 3 is 3 + 27 / 3 = 12
    let c = Curve::Exponential {
        base: PreciseNumber::new(1),
        coefficient: PreciseNumber::new(1),
        exponent: 2,
    };
    assert!(c.is_valid());
    assert_eq!(c.price(3).unwrap(), PreciseNumber::new(10));
    assert_eq!(c.backing_at(3), Some(12));
    assert_eq!(c.cost(0, 3), Some(12));
    let mut last = c.price(0).unwrap();
    for s in [1u64, 5, 77, 1_000_000] {
        let p = c.price(s).unwrap();
        assert!(last.le(&p));
        last = p;
    }
}

#[test]
fn exponential_overflow_is_reported() {
    let c = Curve::Exponential {
        base: PreciseNumber::zero(),
        coefficient: PreciseNumber::new(1),
        exponent: 16,
    };
    assert_eq!(c.price(u64::MAX), None);
    assert_eq!(c.backing_at(u64::MAX), None);
    assert_eq!(c.cost(0, u64::MAX), None);
}

#[test]
fn exponential_exponent_is_bounded() {
    let c = Curve::Exponential {
        base: PreciseNumber::zero(),
        coefficient: PreciseNumber::new(1),
        exponent: 17,
    };
    assert!(!c.is_valid());
}

fn segment(start: u64, intercept: u128, slope: u128) -> Segment {
    Segment { start, intercept: precise_raw(intercept), slope: precise_raw(slope) }
}

#[test]
fn piecewise_price_and_backing() {
    // price 1 up to 100, then rising by 0.01 per unit
    let c = Curve::Piecewise {
        segments: vec![segment(0, 1_000_000_000_000, 0), segment(100, 1_000_000_000_000, 10_000_000_000)],
    };
    assert!(c.is_valid());
    assert_eq!(c.price(50).unwrap(), PreciseNumber::new(1));
    assert_eq!(c.price(100).unwrap(), PreciseNumber::new(1));
    assert_eq!(c.price(150).unwrap(), precise_raw(1_500_000_000_000));
    assert_eq!(c.backing_at(100), Some(100));
    assert_eq!(c.backing_at(200), Some(250));
    assert_eq!(c.cost(100, 200), Some(150));
    let mut last = c.price(0).unwrap();
    for s in [1u64, 99, 100, 101, 5000] {
        let p = c.price(s).unwrap();
        assert!(last.le(&p));
        last = p;
    }
}

#[test]
fn piecewise_shape_is_checked() {
    let down = Curve::Piecewise {
        segments: vec![segment(0, 1_000_000_000_000, 1_000_000_000), segment(10, 1_000_000_000_000, 0)],
    };
    assert!(!down.is_valid());
    let unordered = Curve::Piecewise {
        segments: vec![segment(0, 1, 0), segment(5, 2, 0), segment(5, 3, 0)],
    };
    assert!(!unordered.is_valid());
    let late_start = Curve::Piecewise { segments: vec![segment(1, 1, 0)] };
    assert!(!late_start.is_valid());
    let empty = Curve::Piecewise { segments: vec![] };
    assert!(!empty.is_valid());
    let continuous = Curve::Piecewise {
        segments: vec![segment(0, 1_000_000_000_000, 1_000_000_000), segment(10, 1_010_000_000_000, 0)],
    };
    assert!(continuous.is_valid());
}
