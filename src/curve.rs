//! Pricing curves. A curve gives the spot price at a supply, and the reserve
//! that must back a supply: the integral of the price from zero, computed in
//! closed form and rounded up to whole reserve units. The cost of moving the
//! supply between two levels is the difference of the two backings, so a buy
//! followed by the matching sell returns exactly what was paid.
use vstd::prelude::*;
use crate::precise::{PreciseNumber, ceil_div, one, raw, lemma_ceil_div_parts};
use crate::wide::{WideUint, wide_max, lemma_mul_at_least};

verus! {

/// The largest exponent an exponential curve may have.
pub const MAX_EXPONENT: u8 = 16;

const ONE: u64 = 1_000_000_000_000;

/// `b` raised to `e`.
pub open spec fn power(b: nat, e: nat) -> nat
    decreases e,
{
    if e == 0 {
        1
    } else {
        power(b, (e - 1) as nat) * b
    }
}

proof fn lemma_power_base_monotone(a: nat, b: nat, e: nat)
    requires
        a <= b,
    ensures
        power(a, e) <= power(b, e),
    decreases e,
{
    if e > 0 {
        lemma_power_base_monotone(a, b, (e - 1) as nat);
        let pa = power(a, (e - 1) as nat);
        let pb = power(b, (e - 1) as nat);
        assert(pa * a <= pb * b) by (nonlinear_arith)
            requires
                a <= b,
                pa <= pb,
        ;
    }
}

proof fn lemma_power_exp_monotone(b: nat, e1: nat, e2: nat)
    requires
        b >= 1,
        e1 <= e2,
    ensures
        power(b, e1) <= power(b, e2),
    decreases e2,
{
    if e1 < e2 {
        lemma_power_exp_monotone(b, e1, (e2 - 1) as nat);
        lemma_mul_at_least(b as int, power(b, (e2 - 1) as nat) as int);
    }
}

/// `b` raised to `e`, if the power fits a `WideUint`.
fn wide_power(b: u64, e: u32) -> (r: Option<WideUint>)
    ensures
        match r {
            Some(v) => v.val() == power(b as nat, e as nat),
            None => power(b as nat, e as nat) > wide_max(),
        },
{
    let base = WideUint::from_u64(b);
    let mut acc = WideUint::from_u64(1);
    let mut i: u32 = 0;
    if b == 0 {
        proof {
            if e > 0 {
                assert(power(0, e as nat) == 0 * power(0, (e - 1) as nat));
            }
        }
        return if e == 0 {
            Some(acc)
        } else {
            Some(WideUint::zero())
        };
    }
    while i < e
        invariant
            i <= e,
            b >= 1,
            base.val() == b,
            acc.val() == power(b as nat, i as nat),
        decreases e - i,
    {
        match acc.checked_mul(&base) {
            Ok(v) => {
                assert(v.val() == power(b as nat, (i + 1) as nat));
                acc = v;
            },
            Err(_) => {
                proof {
                    lemma_power_exp_monotone(b as nat, (i + 1) as nat, e as nat);
                }
                return None;
            },
        }
        i = i + 1;
    }
    Some(acc)
}

/// One linear piece of a piecewise curve: from supply `start` on, until the
/// next piece starts, `price(s) = intercept + slope * (s - start)`.
#[derive(Clone, Copy, Debug, PartialEq, Eq, Structural)]
pub struct Segment {
    pub start: u64,
    pub intercept: PreciseNumber,
    pub slope: PreciseNumber,
}

/// Twice the integral of `a + m * x` over `0 <= x <= w`, in raw units.
pub open spec fn linear_term(a: nat, m: nat, w: nat) -> nat {
    a * w * 2 + m * w * w
}

/// How much of piece `i` lies below supply `s`.
pub open spec fn segment_width(segs: Seq<Segment>, i: int, s: nat) -> nat {
    let st = segs[i].start as nat;
    if s <= st {
        0
    } else if i + 1 < segs.len() && segs[i + 1].start < s {
        (segs[i + 1].start - st) as nat
    } else {
        (s - st) as nat
    }
}

/// The integral numerator of pieces `i..` up to supply `s`.
pub open spec fn pieces_numerator(segs: Seq<Segment>, i: int, s: nat) -> nat
    decreases segs.len() - i,
{
    if i < 0 || i >= segs.len() {
        0
    } else {
        linear_term(segs[i].intercept.val(), segs[i].slope.val(), segment_width(segs, i, s))
            + pieces_numerator(segs, i + 1, s)
    }
}

/// The price at supply `s`, looking from piece `i` on.
pub open spec fn pieces_price(segs: Seq<Segment>, i: int, s: nat) -> nat
    decreases segs.len() - i,
{
    if i < 0 || i >= segs.len() {
        0
    } else if i + 1 < segs.len() && segs[i + 1].start <= s {
        pieces_price(segs, i + 1, s)
    } else {
        segs[i].intercept.val() + segs[i].slope.val() * ((s - segs[i].start) as nat)
    }
}

/// Piece `i + 1` starts after piece `i`, at a price no lower than where
/// piece `i` ends.
pub open spec fn step_ok(segs: Seq<Segment>, i: int) -> bool {
    &&& segs[i].start < segs[i + 1].start
    &&& segs[i].intercept.val() + segs[i].slope.val() * ((segs[i + 1].start - segs[i].start) as nat)
        <= segs[i + 1].intercept.val()
}

/// The pieces start at supply 0, in increasing order, and never step down.
pub open spec fn pieces_valid(segs: Seq<Segment>) -> bool {
    &&& segs.len() >= 1
    &&& segs[0].start == 0
    &&& forall|i: int| 0 <= i < segs.len() - 1 ==> #[trigger] step_ok(segs, i)
}

/// A pricing formula. Coefficients are unsigned, so every curve's price is
/// non-decreasing in the supply.
#[derive(Debug)]
pub enum Curve {
    /// `price(s) = intercept + slope * s`
    Linear { intercept: PreciseNumber, slope: PreciseNumber },
    /// `price(s) = base + coefficient * s^exponent`
    Exponential { base: PreciseNumber, coefficient: PreciseNumber, exponent: u8 },
    /// Linear pieces, each taking over from the previous one at its start.
    Piecewise { segments: Vec<Segment> },
}

impl Curve {
    /// Well-formed: the exponent of an exponential curve is at most `MAX_EXPONENT`.
    pub open spec fn valid(self) -> bool {
        match self {
            Curve::Linear { .. } => true,
            Curve::Exponential { exponent, .. } => exponent <= MAX_EXPONENT,
            Curve::Piecewise { segments } => pieces_valid(segments@),
        }
    }

    /// Spot price at supply `s`, as a raw fixed-point value.
    pub open spec fn price_at(self, s: nat) -> nat {
        match self {
            Curve::Linear { intercept, slope } => intercept.val() + slope.val() * s,
            Curve::Exponential { base, coefficient, exponent } => base.val() + coefficient.val()
                * power(s, exponent as nat),
            Curve::Piecewise { segments } => pieces_price(segments@, 0, s),
        }
    }

    /// The integral of the price from 0 to `s` is `numerator(s) / denominator()`
    /// reserve units.
    pub open spec fn numerator(self, s: nat) -> nat {
        match self {
            Curve::Linear { intercept, slope } => linear_term(intercept.val(), slope.val(), s),
            Curve::Exponential { base, coefficient, exponent } => base.val() * s * ((exponent
                + 1) as nat) + coefficient.val() * power(s, (exponent + 1) as nat),
            Curve::Piecewise { segments } => pieces_numerator(segments@, 0, s),
        }
    }

    pub open spec fn denominator(self) -> nat {
        match self {
            Curve::Linear { .. } => 2 * one(),
            Curve::Exponential { exponent, .. } => ((exponent + 1) as nat) * one(),
            Curve::Piecewise { .. } => 2 * one(),
        }
    }

    /// The reserve that backs supply `s`: the integral rounded up to whole units.
    pub open spec fn backing(self, s: nat) -> nat {
        ceil_div(self.numerator(s), self.denominator())
    }

    /// The backing of `s` can be computed: the numerator fits a `WideUint`
    /// and the backing fits a `u64`.
    pub open spec fn backing_fits(self, s: nat) -> bool {
        self.numerator(s) <= wide_max() && self.backing(s) <= u64::MAX
    }

    pub fn is_valid(&self) -> (r: bool)
        ensures
            r == self.valid(),
    {
        match self {
            Curve::Linear { .. } => true,
            Curve::Exponential { exponent, .. } => *exponent <= MAX_EXPONENT,
            Curve::Piecewise { segments } => segments_are_valid(segments),
        }
    }

    /// Spot price at supply `s`; fails when it is not representable.
    pub fn price(&self, s: u64) -> (r: Option<PreciseNumber>)
        requires
            self.valid(),
        ensures
            raw(r) == (if self.price_at(s as nat) <= wide_max() {
                Some(self.price_at(s as nat))
            } else {
                None::<nat>
            }),
    {
        match self {
            Curve::Linear { intercept, slope } => linear_price(intercept, slope, s),
            Curve::Exponential { base, coefficient, exponent } => {
                if coefficient.value.is_zero() {
                    proof {
                        let p = power(s as nat, *exponent as nat);
                        assert(coefficient.val() * p == 0) by (nonlinear_arith)
                            requires
                                coefficient.val() == 0,
                        ;
                    }
                    return Some(*base);
                }
                let p = match wide_power(s, *exponent as u32) {
                    Some(p) => p,
                    None => {
                        proof {
                            lemma_mul_at_least(coefficient.val() as int, power(s as nat, *exponent as nat) as int);
                        }
                        return None;
                    },
                };
                let t = match coefficient.value.checked_mul(&p) {
                    Ok(t) => t,
                    Err(_) => return None,
                };
                match base.value.checked_add(&t) {
                    Ok(v) => Some(PreciseNumber::from_raw(v)),
                    Err(_) => None,
                }
            },
            Curve::Piecewise { segments } => {
                let count = segments.len();
                let mut i: usize = 0;
                while i + 1 < count && segments[i + 1].start <= s
                    invariant
                        count == segments@.len(),
                        pieces_valid(segments@),
                        0 <= i < segments@.len(),
                        segments@[i as int].start <= s,
                        pieces_price(segments@, 0, s as nat) == pieces_price(
                            segments@,
                            i as int,
                            s as nat,
                        ),
                    decreases segments@.len() - i,
                {
                    i = i + 1;
                }
                let seg = segments[i];
                linear_price(&seg.intercept, &seg.slope, s - seg.start)
            },
        }
    }

    /// The integral numerator at supply `s`; fails when it overflows.
    pub fn numerator_at(&self, s: u64) -> (r: Option<WideUint>)
        requires
            self.valid(),
        ensures
            match r {
                Some(v) => v.val() == self.numerator(s as nat),
                None => self.numerator(s as nat) > wide_max(),
            },
    {
        let sw = WideUint::from_u64(s);
        if s == 0 {
            proof {
                lemma_numerator_at_zero(*self);
            }
            return Some(WideUint::zero());
        }
        let ghost sn = s as nat;
        match self {
            Curve::Linear { intercept, slope } => linear_term_at(intercept, slope, s),
            Curve::Exponential { base, coefficient, exponent } => {
                let ghost b = base.val();
                let ghost k1 = (*exponent + 1) as nat;
                proof {
                    lemma_mul_at_least(sn as int, b as int);
                    lemma_mul_at_least(k1 as int, (b * sn) as int);
                }
                let b_s = match base.value.checked_mul(&sw) {
                    Ok(v) => v,
                    Err(_) => return None,
                };
                let flat = match b_s.checked_mul(&WideUint::from_u64(*exponent as u64 + 1)) {
                    Ok(v) => v,
                    Err(_) => return None,
                };
                let rising = if coefficient.value.is_zero() {
                    proof {
                        let p = power(sn, k1);
                        assert(coefficient.val() * p == 0) by (nonlinear_arith)
                            requires
                                coefficient.val() == 0,
                        ;
                    }
                    WideUint::zero()
                } else {
                    let p = match wide_power(s, *exponent as u32 + 1) {
                        Some(p) => p,
                        None => {
                            proof {
                                lemma_mul_at_least(coefficient.val() as int, power(sn, k1) as int);
                            }
                            return None;
                        },
                    };
                    match coefficient.value.checked_mul(&p) {
                        Ok(v) => v,
                        Err(_) => return None,
                    }
                };
                flat.checked_add(&rising).ok()
            },
            Curve::Piecewise { segments } => {
                let ghost segs = segments@;
                let mut acc = WideUint::zero();
                let mut i: usize = 0;
                while i < segments.len()
                    invariant
                        segs == segments@,
                        sn == s as nat,
                        self.numerator(sn) == pieces_numerator(segs, 0, sn),
                        pieces_valid(segs),
                        0 <= i <= segs.len(),
                        acc.val() + pieces_numerator(segs, i as int, sn) == pieces_numerator(
                            segs,
                            0,
                            sn,
                        ),
                    decreases segs.len() - i,
                {
                    let seg = segments[i];
                    if i + 1 < segments.len() {
                        assert(step_ok(segs, i as int));
                    }
                    let width: u64 = if s <= seg.start {
                        0
                    } else if i + 1 < segments.len() && segments[i + 1].start < s {
                        segments[i + 1].start - seg.start
                    } else {
                        s - seg.start
                    };
                    assert(width == segment_width(segs, i as int, sn));
                    assert(pieces_numerator(segs, i as int, sn) == linear_term(
                        seg.intercept.val(),
                        seg.slope.val(),
                        width as nat,
                    ) + pieces_numerator(segs, i + 1, sn));
                    let term = match linear_term_at(&seg.intercept, &seg.slope, width) {
                        Some(t) => t,
                        None => {
                            assert(pieces_numerator(segs, 0, sn) > wide_max());
                            return None;
                        },
                    };
                    acc = match acc.checked_add(&term) {
                        Ok(v) => v,
                        Err(_) => {
                            assert(pieces_numerator(segs, 0, sn) > wide_max());
                            return None;
                        },
                    };
                    i = i + 1;
                }
                Some(acc)
            },
        }
    }

    fn denominator_wide(&self) -> (r: WideUint)
        requires
            self.valid(),
        ensures
            r.val() == self.denominator(),
    {
        match self {
            Curve::Linear { .. } => WideUint::from_u64(2 * ONE),
            Curve::Exponential { exponent, .. } => WideUint::from_u64((*exponent as u64 + 1) * ONE),
            Curve::Piecewise { .. } => WideUint::from_u64(2 * ONE),
        }
    }

    /// The reserve that backs supply `s`; fails when it cannot be computed.
    pub fn backing_at(&self, s: u64) -> (r: Option<u64>)
        requires
            self.valid(),
        ensures
            match r {
                Some(v) => self.backing_fits(s as nat) && v == self.backing(s as nat),
                None => !self.backing_fits(s as nat),
            },
    {
        let num = match self.numerator_at(s) {
            Some(v) => v,
            None => return None,
        };
        let den = self.denominator_wide();
        let (q, rem) = match num.checked_div_rem(&den) {
            Ok(qr) => qr,
            Err(_) => return None,
        };
        proof {
            lemma_ceil_div_parts(num.val(), den.val(), q.val(), rem.val());
        }
        let rounded = if rem.is_zero() {
            q
        } else {
            match q.checked_add(&WideUint::from_u64(1)) {
                Ok(v) => v,
                Err(_) => return None,
            }
        };
        rounded.to_u64()
    }

    /// The reserve needed to move the supply from `from` up to `to`: the
    /// difference of the two backings. Fails when the backing of `to` cannot
    /// be computed. Backings are rounded up separately, so the cost of the
    /// same number of units at a higher supply is lower by at most one
    /// reserve unit: with a constant price of 0.5, the first unit costs 1 and
    /// the second 0.
    pub fn cost(&self, from: u64, to: u64) -> (r: Option<u64>)
        requires
            self.valid(),
            from <= to,
        ensures
            match r {
                Some(c) => self.backing_fits(to as nat) && c == self.backing(to as nat)
                    - self.backing(from as nat),
                None => !self.backing_fits(to as nat),
            },
    {
        proof {
            lemma_backing_monotone(*self, from as nat, to as nat);
        }
        let high = match self.backing_at(to) {
            Some(v) => v,
            None => return None,
        };
        let low = match self.backing_at(from) {
            Some(v) => v,
            None => return None,
        };
        Some(high - low)
    }
}

/// `intercept + slope * offset`, if it is representable.
fn linear_price(
    intercept: &PreciseNumber,
    slope: &PreciseNumber,
    offset: u64,
) -> (r: Option<PreciseNumber>)
    ensures
        raw(r) == (if intercept.val() + slope.val() * (offset as nat) <= wide_max() {
            Some(intercept.val() + slope.val() * (offset as nat))
        } else {
            None::<nat>
        }),
{
    proof {
        lemma_nonneg_mul(slope.val(), offset as nat);
    }
    let t = match slope.value.checked_mul(&WideUint::from_u64(offset)) {
        Ok(t) => t,
        Err(_) => return None,
    };
    match intercept.value.checked_add(&t) {
        Ok(v) => Some(PreciseNumber::from_raw(v)),
        Err(_) => None,
    }
}

/// `linear_term` of the two coefficients over width `w`; fails when it overflows.
fn linear_term_at(intercept: &PreciseNumber, slope: &PreciseNumber, w: u64) -> (r: Option<WideUint>)
    ensures
        match r {
            Some(v) => v.val() == linear_term(intercept.val(), slope.val(), w as nat),
            None => linear_term(intercept.val(), slope.val(), w as nat) > wide_max(),
        },
{
    let ghost a = intercept.val();
    let ghost m = slope.val();
    let ghost wn = w as nat;
    if w == 0 {
        assert(a * 0 * 2 == 0 && m * 0 * 0 == 0) by (nonlinear_arith);
        return Some(WideUint::zero());
    }
    let ww = WideUint::from_u64(w);
    proof {
        lemma_mul_at_least(2, (a * wn) as int);
        lemma_mul_at_least(wn as int, (m * wn) as int);
        lemma_nonneg_mul(a * wn, 2);
        lemma_nonneg_mul(m * wn, wn);
    }
    let a_w = match intercept.value.checked_mul(&ww) {
        Ok(v) => v,
        Err(_) => return None,
    };
    let flat = match a_w.checked_add(&a_w) {
        Ok(v) => v,
        Err(_) => return None,
    };
    let m_w = match slope.value.checked_mul(&ww) {
        Ok(v) => v,
        Err(_) => return None,
    };
    let rising = match m_w.checked_mul(&ww) {
        Ok(v) => v,
        Err(_) => return None,
    };
    flat.checked_add(&rising).ok()
}

/// Checks `pieces_valid`.
fn segments_are_valid(segments: &Vec<Segment>) -> (r: bool)
    ensures
        r == pieces_valid(segments@),
{
    if segments.len() == 0 || segments[0].start != 0 {
        return false;
    }
    let count = segments.len();
    let mut i: usize = 0;
    while i + 1 < count
        invariant
            count == segments@.len(),
            segments@.len() >= 1,
            segments@[0].start == 0,
            0 <= i < segments@.len(),
            forall|k: int| 0 <= k < i ==> #[trigger] step_ok(segments@, k),
        decreases segments@.len() - i,
    {
        let this = segments[i];
        let next = segments[i + 1];
        if next.start <= this.start {
            assert(!step_ok(segments@, i as int));
            return false;
        }
        let end_price = match linear_price(&this.intercept, &this.slope, next.start - this.start) {
            Some(p) => p,
            None => {
                assert(!step_ok(segments@, i as int));
                return false;
            },
        };
        if !end_price.le(&next.intercept) {
            assert(!step_ok(segments@, i as int));
            return false;
        }
        i = i + 1;
    }
    true
}

proof fn lemma_nonneg_mul(a: nat, b: nat)
    ensures
        a * b >= 0,
{
}

/// An empty supply needs no backing.
pub proof fn lemma_backing_at_zero(c: Curve)
    ensures
        c.numerator(0) == 0,
        c.backing(0) == 0,
        c.backing_fits(0),
{
    lemma_numerator_at_zero(c);
    let d = c.denominator();
    assert(d > 0);
    vstd::arithmetic::div_mod::lemma_fundamental_div_mod_converse((d - 1) as int, d as int, 0, (d - 1) as int);
}

proof fn lemma_numerator_at_zero(c: Curve)
    ensures
        c.numerator(0) == 0,
{
    match c {
        Curve::Linear { intercept, slope } => {
            let a = intercept.val();
            let m = slope.val();
            assert(a * 0 * 2 + m * 0 * 0 == 0) by (nonlinear_arith);
            assert(linear_term(a, m, 0) == 0);
        },
        Curve::Exponential { base, coefficient, exponent } => {
            let k1 = (exponent + 1) as nat;
            let p = power(0, k1);
            assert(p == power(0, (k1 - 1) as nat) * 0);
            assert(base.val() * 0 * k1 + coefficient.val() * p == 0) by (nonlinear_arith)
                requires
                    p == 0,
            ;
        },
        Curve::Piecewise { segments } => {
            lemma_pieces_at_zero(segments@, 0);
        },
    }
}

proof fn lemma_pieces_at_zero(segs: Seq<Segment>, i: int)
    ensures
        pieces_numerator(segs, i, 0) == 0,
    decreases segs.len() - i,
{
    if 0 <= i < segs.len() {
        lemma_pieces_at_zero(segs, i + 1);
        let a = segs[i].intercept.val();
        let m = segs[i].slope.val();
        assert(a * 0 * 2 + m * 0 * 0 == 0) by (nonlinear_arith);
    }
}

proof fn lemma_linear_term_monotone(a: nat, m: nat, w1: nat, w2: nat)
    requires
        w1 <= w2,
    ensures
        linear_term(a, m, w1) <= linear_term(a, m, w2),
{
    assert(a * w1 * 2 <= a * w2 * 2 && m * w1 * w1 <= m * w2 * w2) by (nonlinear_arith)
        requires
            w1 <= w2,
    ;
}

proof fn lemma_pieces_numerator_monotone(segs: Seq<Segment>, i: int, s1: nat, s2: nat)
    requires
        s1 <= s2,
    ensures
        pieces_numerator(segs, i, s1) <= pieces_numerator(segs, i, s2),
    decreases segs.len() - i,
{
    if 0 <= i < segs.len() {
        lemma_pieces_numerator_monotone(segs, i + 1, s1, s2);
        assert(segment_width(segs, i, s1) <= segment_width(segs, i, s2));
        lemma_linear_term_monotone(
            segs[i].intercept.val(),
            segs[i].slope.val(),
            segment_width(segs, i, s1),
            segment_width(segs, i, s2),
        );
    }
}

/// From its own start on, the price of a valid piecewise curve is at least
/// the intercept of the piece it starts from.
proof fn lemma_pieces_price_floor(segs: Seq<Segment>, i: int, s: nat)
    requires
        pieces_valid(segs),
        0 <= i < segs.len(),
        segs[i].start <= s,
    ensures
        pieces_price(segs, i, s) >= segs[i].intercept.val(),
    decreases segs.len() - i,
{
    if i + 1 < segs.len() && segs[i + 1].start <= s {
        lemma_pieces_price_floor(segs, i + 1, s);
        assert(step_ok(segs, i));
    }
}

proof fn lemma_pieces_price_monotone(segs: Seq<Segment>, i: int, s1: nat, s2: nat)
    requires
        pieces_valid(segs),
        0 <= i < segs.len(),
        segs[i].start <= s1 <= s2,
    ensures
        pieces_price(segs, i, s1) <= pieces_price(segs, i, s2),
    decreases segs.len() - i,
{
    let a = segs[i].intercept.val();
    let m = segs[i].slope.val();
    let st = segs[i].start as nat;
    if i + 1 < segs.len() && segs[i + 1].start <= s1 {
        lemma_pieces_price_monotone(segs, i + 1, s1, s2);
    } else if i + 1 < segs.len() && segs[i + 1].start <= s2 {
        let next = segs[i + 1].start as nat;
        assert(step_ok(segs, i));
        lemma_pieces_price_floor(segs, i + 1, s2);
        assert(m * ((s1 - st) as nat) <= m * ((next - st) as nat)) by (nonlinear_arith)
            requires
                s1 < next,
                st <= s1,
        ;
    } else {
        assert(m * ((s1 - st) as nat) <= m * ((s2 - st) as nat)) by (nonlinear_arith)
            requires
                st <= s1 <= s2,
        ;
    }
}

/// On a well-formed curve, spot prices never fall as the supply grows.
pub proof fn lemma_price_monotone(c: Curve, s1: nat, s2: nat)
    requires
        c.valid(),
        s1 <= s2,
    ensures
        c.price_at(s1) <= c.price_at(s2),
{
    match c {
        Curve::Linear { intercept, slope } => {
            assert(slope.val() * s1 <= slope.val() * s2) by (nonlinear_arith)
                requires
                    s1 <= s2,
            ;
        },
        Curve::Exponential { base, coefficient, exponent } => {
            let p1 = power(s1, exponent as nat);
            let p2 = power(s2, exponent as nat);
            lemma_power_base_monotone(s1, s2, exponent as nat);
            assert(coefficient.val() * p1 <= coefficient.val() * p2) by (nonlinear_arith)
                requires
                    p1 <= p2,
            ;
        },
        Curve::Piecewise { segments } => {
            lemma_pieces_price_monotone(segments@, 0, s1, s2);
        },
    }
}

/// The integral numerator, and with it the backing, never falls as the
/// supply grows.
pub proof fn lemma_backing_monotone(c: Curve, s1: nat, s2: nat)
    requires
        s1 <= s2,
    ensures
        c.numerator(s1) <= c.numerator(s2),
        c.backing(s1) <= c.backing(s2),
{
    match c {
        Curve::Linear { intercept, slope } => {
            let a = intercept.val();
            let m = slope.val();
            assert(a * s1 * 2 <= a * s2 * 2 && m * s1 * s1 <= m * s2 * s2) by (nonlinear_arith)
                requires
                    s1 <= s2,
            ;
        },
        Curve::Exponential { base, coefficient, exponent } => {
            let k1 = (exponent + 1) as nat;
            let p1 = power(s1, k1);
            let p2 = power(s2, k1);
            lemma_power_base_monotone(s1, s2, k1);
            let b = base.val();
            let cf = coefficient.val();
            assert(b * s1 * k1 <= b * s2 * k1 && cf * p1 <= cf * p2) by (nonlinear_arith)
                requires
                    s1 <= s2,
                    p1 <= p2,
            ;
        },
        Curve::Piecewise { segments } => {
            lemma_pieces_numerator_monotone(segments@, 0, s1, s2);
        },
    }
    let d = c.denominator();
    assert(d > 0);
    vstd::arithmetic::div_mod::lemma_div_is_ordered(
        (c.numerator(s1) + d - 1) as int,
        (c.numerator(s2) + d - 1) as int,
        d as int,
    );
}

} // verus!
