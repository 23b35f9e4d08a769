//! The kinked rate curve: APY as a piecewise-linear function of utilization.
use vstd::prelude::*;
use crate::fixed_point::{
    div_half_even, div_round_half_even, lemma_div_half_even_monotone, lemma_div_half_even_upper,
    lemma_div_half_even_zero, SCALE,
};

verus! {

/// Rate at zero utilization in the standard curve: 0.02.
pub const BASE_RATE: u128 = 20_000_000_000_000_000;

/// Utilization at which the standard curve steepens: 0.8.
pub const KINK_UTILIZATION: u128 = 800_000_000_000_000_000;

/// Slope of the standard curve up to the kink: 0.1.
pub const SLOPE_BELOW_KINK: u128 = 100_000_000_000_000_000;

/// Slope of the standard curve past the kink: 1.0.
pub const SLOPE_ABOVE_KINK: u128 = 1_000_000_000_000_000_000;

/// Largest base rate or slope a curve may have: 100.0, so that a rate at full
/// utilization stays far inside `u128`.
pub const MAX_RATE_PARAMETER: u128 = 100_000_000_000_000_000_000;

/// The parameters of a kinked curve, each a fixed-point decimal.
#[derive(Clone, Copy, Debug, PartialEq, Eq, Structural)]
pub struct RateModel {
    pub base_rate: u128,
    pub kink_utilization: u128,
    pub slope_below_kink: u128,
    pub slope_above_kink: u128,
}

impl RateModel {
    /// The kink lies within `[0, 1]` and no parameter exceeds `MAX_RATE_PARAMETER`.
    pub open spec fn wf(self) -> bool {
        &&& self.kink_utilization <= SCALE
        &&& self.base_rate <= MAX_RATE_PARAMETER
        &&& self.slope_below_kink <= MAX_RATE_PARAMETER
        &&& self.slope_above_kink <= MAX_RATE_PARAMETER
    }

    /// The branch up to the kink: `base + u * slope_below`.
    pub open spec fn below_kink_apy(self, u: int) -> int {
        self.base_rate + div_half_even(u * self.slope_below_kink, SCALE as int)
    }

    /// The branch past the kink:
    /// `base + kink * slope_below + (u - kink) * slope_above`.
    pub open spec fn above_kink_apy(self, u: int) -> int {
        self.base_rate + div_half_even(
            self.kink_utilization * self.slope_below_kink,
            SCALE as int,
        ) + div_half_even(
            (u - self.kink_utilization) * self.slope_above_kink,
            SCALE as int,
        )
    }

    /// The APY at utilization `u`, each product rounded half to even.
    pub open spec fn apy_of(self, u: int) -> int {
        if u <= self.kink_utilization {
            self.below_kink_apy(u)
        } else {
            self.above_kink_apy(u)
        }
    }

    /// The curve made of `BASE_RATE`, `KINK_UTILIZATION`, `SLOPE_BELOW_KINK`
    /// and `SLOPE_ABOVE_KINK`.
    pub fn standard() -> (m: RateModel)
        ensures
            m.wf(),
            m.base_rate == BASE_RATE,
            m.kink_utilization == KINK_UTILIZATION,
            m.slope_below_kink == SLOPE_BELOW_KINK,
            m.slope_above_kink == SLOPE_ABOVE_KINK,
    {
        RateModel {
            base_rate: BASE_RATE,
            kink_utilization: KINK_UTILIZATION,
            slope_below_kink: SLOPE_BELOW_KINK,
            slope_above_kink: SLOPE_ABOVE_KINK,
        }
    }

    /// The APY at `utilization`.
    pub fn calc_apy(&self, utilization: u128) -> (apy: u128)
        requires
            self.wf(),
            utilization <= SCALE,
        ensures
            apy == self.apy_of(utilization as int),
            apy <= 3 * MAX_RATE_PARAMETER,
    {
        proof {
            lemma_products_fit(*self, utilization as int);
        }
        let below = div_round_half_even(
            if utilization <= self.kink_utilization { utilization } else { self.kink_utilization } * self.slope_below_kink,
            SCALE,
        );
        if utilization <= self.kink_utilization {
            self.base_rate + below
        } else {
            let above = div_round_half_even(
                (utilization - self.kink_utilization) * self.slope_above_kink,
                SCALE,
            );
            self.base_rate + below + above
        }
    }
}

/// Every product the curve rounds fits in `u128`, and each rounded term is at
/// most `MAX_RATE_PARAMETER`.
proof fn lemma_products_fit(m: RateModel, u: int)
    requires
        m.wf(),
        0 <= u <= SCALE,
    ensures
        u * m.slope_below_kink <= SCALE * MAX_RATE_PARAMETER,
        div_half_even(u * m.slope_below_kink, SCALE as int) <= MAX_RATE_PARAMETER,
        m.kink_utilization * m.slope_below_kink <= SCALE * MAX_RATE_PARAMETER,
        div_half_even(m.kink_utilization * m.slope_below_kink, SCALE as int)
            <= MAX_RATE_PARAMETER,
        u > m.kink_utilization ==> (u - m.kink_utilization) * m.slope_above_kink
            <= SCALE * MAX_RATE_PARAMETER,
        u > m.kink_utilization ==> div_half_even(
            (u - m.kink_utilization) * m.slope_above_kink,
            SCALE as int,
        ) <= MAX_RATE_PARAMETER,
{
    let s = SCALE as int;
    let mx = MAX_RATE_PARAMETER as int;
    assert(u * m.slope_below_kink <= s * mx) by (nonlinear_arith)
        requires
            0 <= u <= s,
            m.slope_below_kink <= mx,
    ;
    lemma_div_half_even_upper(u * m.slope_below_kink, s, mx);
    assert(m.kink_utilization * m.slope_below_kink <= s * mx) by (nonlinear_arith)
        requires
            m.kink_utilization <= s,
            m.slope_below_kink <= mx,
    ;
    lemma_div_half_even_upper(m.kink_utilization * m.slope_below_kink, s, mx);
    if u > m.kink_utilization {
        let v = u - m.kink_utilization;
        assert(v * m.slope_above_kink <= s * mx) by (nonlinear_arith)
            requires
                0 <= v <= s,
                m.slope_above_kink <= mx,
        ;
        lemma_div_half_even_upper(v * m.slope_above_kink, s, mx);
    }
}

/// The two branches of the curve agree at the kink, so the curve has no jump.
pub proof fn lemma_apy_continuous_at_kink(m: RateModel)
    ensures
        m.below_kink_apy(m.kink_utilization as int) == m.above_kink_apy(
            m.kink_utilization as int,
        ),
        m.apy_of(m.kink_utilization as int) == m.above_kink_apy(m.kink_utilization as int),
{
    lemma_div_half_even_zero(SCALE as int);
    assert((m.kink_utilization - m.kink_utilization) * m.slope_above_kink == 0);
}

/// The APY never falls as utilization rises.
pub proof fn lemma_apy_monotone(m: RateModel, u1: int, u2: int)
    requires
        0 <= u1 <= u2,
    ensures
        m.apy_of(u1) <= m.apy_of(u2),
{
    let s = SCALE as int;
    let k = m.kink_utilization as int;
    if u2 <= k {
        assert(u1 * m.slope_below_kink <= u2 * m.slope_below_kink) by (nonlinear_arith)
            requires
                u1 <= u2,
        ;
        lemma_div_half_even_monotone(u1 * m.slope_below_kink, u2 * m.slope_below_kink, s);
    } else if u1 > k {
        let v1 = u1 - k;
        let v2 = u2 - k;
        assert(v1 * m.slope_above_kink <= v2 * m.slope_above_kink) by (nonlinear_arith)
            requires
                v1 <= v2,
        ;
        lemma_div_half_even_monotone(v1 * m.slope_above_kink, v2 * m.slope_above_kink, s);
    } else {
        assert(u1 * m.slope_below_kink <= k * m.slope_below_kink) by (nonlinear_arith)
            requires
                u1 <= k,
        ;
        lemma_div_half_even_monotone(u1 * m.slope_below_kink, k * m.slope_below_kink, s);
    }
}

} // verus!
