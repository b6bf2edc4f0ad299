use vstd::prelude::*;
use vstd::string::StringExecFns;
use crate::amount::{Amount, SCALE};

verus! {

/// An exact fraction `num / den`.
#[derive(Clone, Copy, Debug, PartialEq, Eq, Structural)]
pub struct Fraction {
    pub num: i128,
    pub den: i128,
}

impl Fraction {
    pub open spec fn q(self) -> (int, int) {
        (self.num as int, self.den as int)
    }
}

/// Two fractions with positive denominators denote the same number.
pub open spec fn same_value(x: (int, int), y: (int, int)) -> bool {
    x.0 * y.1 == y.0 * x.1
}

pub open spec fn q_mul(x: (int, int), y: (int, int)) -> (int, int) {
    (x.0 * y.0, x.1 * y.1)
}

pub open spec fn q_div(x: (int, int), y: (int, int)) -> (int, int) {
    (x.0 * y.1, x.1 * y.0)
}

pub open spec fn q_sub(x: (int, int), y: (int, int)) -> (int, int) {
    (x.0 * y.1 - y.0 * x.1, x.1 * y.1)
}

/// The number that an amount of `units` stands for.
pub open spec fn amount_q(units: int) -> (int, int) {
    (units, SCALE as int)
}

/// `cash * (risk / 100)`.
pub open spec fn total_risk(cash: int, risk: int) -> (int, int) {
    q_mul(amount_q(cash), q_div(amount_q(risk), (100, 1)))
}

/// `price - stop`.
pub open spec fn loss_delta(price: int, stop: int) -> (int, int) {
    q_sub(amount_q(price), amount_q(stop))
}

/// `total_risk / loss_delta`.
pub open spec fn max_shares(cash: int, risk: int, price: int, stop: int) -> (int, int) {
    q_div(total_risk(cash, risk), loss_delta(price, stop))
}

/// `max_shares * price`.
pub open spec fn position_size(cash: int, risk: int, price: int, stop: int) -> (int, int) {
    q_mul(max_shares(cash, risk, price, stop), amount_q(price))
}

/// Bound on `|cash * risk * price|` in units, under which every figure of
/// the report can be computed exactly.
pub const PRODUCT_LIMIT: i128 = 10000000000000000000000000000000000000;

pub open spec fn in_range(cash: int, risk: int, price: int) -> bool {
    -(PRODUCT_LIMIT as int) <= cash * risk * price <= PRODUCT_LIMIT as int
}

/// The four numbers of a risk-based position.
#[derive(Clone, Copy, Debug, PartialEq, Eq, Structural)]
pub struct Position {
    pub total_risk: Fraction,
    pub loss_delta: Fraction,
    pub max_shares: Fraction,
    pub position_size: Fraction,
}

/// Why no position can be sized.
#[derive(Clone, Copy, Debug, PartialEq, Eq, Structural)]
pub enum SizingError {
    /// The stop price is not below the buy price.
    InvalidStop,
    /// `cash * risk * price` is too large to compute with exactly.
    OutOfRange,
}

impl SizingError {
    /// A one-line description of the error.
    pub fn message(&self) -> (r: String)
        ensures
            r@ == match self {
                SizingError::InvalidStop => "invalid stop price"@,
                SizingError::OutOfRange => "numbers too large to compute with"@,
            },
    {
        match self {
            SizingError::InvalidStop => String::from_str("invalid stop price"),
            SizingError::OutOfRange => String::from_str("numbers too large to compute with"),
        }
    }
}

/// The position's figures, each with a positive denominator, equal in value
/// to the formulas over the inputs.
pub open spec fn position_matches(pos: Position, cash: int, risk: int, price: int, stop: int) -> bool {
    &&& pos.total_risk.den > 0
    &&& pos.loss_delta.den > 0
    &&& pos.max_shares.den > 0
    &&& pos.position_size.den > 0
    &&& same_value(pos.total_risk.q(), total_risk(cash, risk))
    &&& same_value(pos.loss_delta.q(), loss_delta(price, stop))
    &&& same_value(pos.max_shares.q(), max_shares(cash, risk, price, stop))
    &&& same_value(pos.position_size.q(), position_size(cash, risk, price, stop))
}

/// The fractions in lowest common form that `size_position` gives.
pub open spec fn exact_fractions(pos: Position, cash: int, risk: int, price: int, stop: int) -> bool {
    let s = SCALE as int;
    &&& pos.total_risk.q() == (cash * risk, 100 * s * s)
    &&& pos.loss_delta.q() == (price - stop, s)
    &&& pos.max_shares.q() == (cash * risk, 100 * s * (price - stop))
    &&& pos.position_size.q() == (cash * risk * price, 100 * s * s * (price - stop))
    &&& in_range(cash, risk, price)
}

/// Sizes a position: how much is at risk, how far the stop lies below the
/// price, how many shares that risk buys and what they cost.
pub fn size_position(cash: Amount, risk: Amount, price: Amount, stop: Amount) -> (r: Result<Position, SizingError>)
    ensures
        stop.units >= price.units <==> r == Err::<Position, SizingError>(SizingError::InvalidStop),
        (stop.units < price.units && !in_range(cash.units as int, risk.units as int, price.units as int))
            <==> r == Err::<Position, SizingError>(SizingError::OutOfRange),
        r is Ok ==> position_matches(r->Ok_0, cash.units as int, risk.units as int, price.units as int, stop.units as int),
        r is Ok ==> exact_fractions(r->Ok_0, cash.units as int, risk.units as int, price.units as int, stop.units as int),
{
    if stop.units >= price.units {
        return Err(SizingError::InvalidStop);
    }
    let c = cash.units as i128;
    let rk = risk.units as i128;
    let p = price.units as i128;
    let s = stop.units as i128;
    let ghost (ci, ri, pi, si) = (c as int, rk as int, p as int, s as int);
    proof {
        assert(-0x4000_0000_0000_0000_0000_0000_0000_0000 <= ci * ri <= 0x4000_0000_0000_0000_0000_0000_0000_0000) by (nonlinear_arith)
            requires -0x8000_0000_0000_0000 <= ci <= 0x7fff_ffff_ffff_ffff, -0x8000_0000_0000_0000 <= ri <= 0x7fff_ffff_ffff_ffff;
    }
    let cr = c * rk;
    let cr_abs: i128 = if cr < 0 { -cr } else { cr };
    let p_abs: i128 = if p < 0 { -p } else { p };
    if p_abs > 0 && cr_abs > PRODUCT_LIMIT / p_abs {
        proof {
            assert(cr_abs * p_abs > PRODUCT_LIMIT) by (nonlinear_arith)
                requires cr_abs > PRODUCT_LIMIT / p_abs, p_abs > 0;
            assert(abs_int(ci * ri * pi) == cr_abs * p_abs) by (nonlinear_arith)
                requires cr_abs == abs_int(ci * ri), p_abs == abs_int(pi), cr == ci * ri;
        }
        return Err(SizingError::OutOfRange);
    }
    proof {
        if p_abs > 0 {
            assert(cr_abs * p_abs <= PRODUCT_LIMIT) by (nonlinear_arith)
                requires cr_abs <= PRODUCT_LIMIT / p_abs, p_abs > 0;
        }
        assert(abs_int(ci * ri * pi) == cr_abs * p_abs) by (nonlinear_arith)
            requires cr_abs == abs_int(ci * ri), p_abs == abs_int(pi), cr == ci * ri;
    }
    let crp = cr * p;
    let delta = p - s;
    let sc = SCALE as i128;
    assert(sc == 100000000);
    proof {
        assert(0 < delta <= 0x1_0000_0000_0000_0000);
        assert(100 * sc * sc * delta <= 100 * 100000000 * 100000000 * 0x1_0000_0000_0000_0000) by (nonlinear_arith)
            requires 0 < delta <= 0x1_0000_0000_0000_0000, sc == 100000000;
        assert(100 * sc * delta <= 100 * 100000000 * 0x1_0000_0000_0000_0000) by (nonlinear_arith)
            requires 0 < delta <= 0x1_0000_0000_0000_0000, sc == 100000000;
    }
    let total_risk_f = Fraction { num: cr, den: 100 * sc * sc };
    let loss_delta_f = Fraction { num: delta, den: sc };
    let max_shares_f = Fraction { num: cr, den: 100 * sc * delta };
    let position_size_f = Fraction { num: crp, den: 100 * sc * sc * delta };
    proof {
        let sci = SCALE as int;
        assert(max_shares_f.den > 0) by (nonlinear_arith)
            requires max_shares_f.den == 100 * sc * delta, sc == 100000000, delta > 0;
        assert(position_size_f.den > 0) by (nonlinear_arith)
            requires position_size_f.den == 100 * sc * sc * delta, sc == 100000000, delta > 0;
        assert(sci == 100000000);
        assert(same_value(total_risk_f.q(), total_risk(ci, ri))) by (nonlinear_arith)
            requires total_risk_f.q() == (ci * ri, 100 * sci * sci),
                total_risk(ci, ri) == q_mul((ci, sci), q_div((ri, sci), (100, 1)));
        assert(same_value(loss_delta_f.q(), loss_delta(pi, si))) by (nonlinear_arith)
            requires loss_delta_f.q() == (pi - si, sci), loss_delta(pi, si) == q_sub((pi, sci), (si, sci)), sci > 0;
        assert(same_value(max_shares_f.q(), max_shares(ci, ri, pi, si))) by (nonlinear_arith)
            requires max_shares_f.q() == (ci * ri, 100 * sci * (pi - si)),
                max_shares(ci, ri, pi, si) == q_div(q_mul((ci, sci), q_div((ri, sci), (100, 1))), q_sub((pi, sci), (si, sci)));
        assert(same_value(position_size_f.q(), position_size(ci, ri, pi, si))) by (nonlinear_arith)
            requires position_size_f.q() == (ci * ri * pi, 100 * sci * sci * (pi - si)),
                position_size(ci, ri, pi, si) == q_mul(q_div(q_mul((ci, sci), q_div((ri, sci), (100, 1))), q_sub((pi, sci), (si, sci))), (pi, sci));
    }
    let pos = Position {
        total_risk: total_risk_f,
        loss_delta: loss_delta_f,
        max_shares: max_shares_f,
        position_size: position_size_f,
    };
    assert(position_matches(pos, ci, ri, pi, si));
    assert(exact_fractions(pos, ci, ri, pi, si));
    Ok(pos)
}

pub open spec fn abs_int(v: int) -> int {
    if v < 0 { -v } else { v }
}

} // verus!
