use vstd::prelude::*;
use crate::param::{in_pan_range, PAN_UNIT};

verus! {

/// The fixed-point value of unity gain (`1.0`); twice `PAN_UNIT`, so that the
/// linear law's gains are exact.
pub const GAIN_UNIT: u32 = 33554432;

/// How a pan position is turned into channel gains.
#[derive(Clone, Copy, Debug, PartialEq, Eq, Structural)]
pub enum GainLaw {
    /// Constant amplitude: the two gains sum to unity.
    Linear,
    /// Constant power: the squares of the two gains sum to unity.
    EqualPower,
}

/// The gains of the left and right channel, as multiples of `1 / GAIN_UNIT`.
#[derive(Clone, Copy, Debug, PartialEq, Eq, Structural)]
pub struct GainPair {
    pub left: u32,
    pub right: u32,
}

/// `r` is the square root of `n`, rounded down.
pub open spec fn is_floor_sqrt(r: int, n: int) -> bool {
    0 <= r && r * r <= n < (r + 1) * (r + 1)
}

/// The square root of `n`, rounded down (for `n >= 0`).
pub open spec fn floor_sqrt(n: int) -> int {
    choose|r: int| is_floor_sqrt(r, n)
}

/// The gains that `law` gives at pan position `p`, as multiples of
/// `1 / GAIN_UNIT`: `(1 - p) / 2` and `(1 + p) / 2` for the linear law, their
/// square roots, rounded down, for the equal-power law.
pub open spec fn law_gains(law: GainLaw, p: int) -> (int, int) {
    match law {
        GainLaw::Linear => (PAN_UNIT - p, PAN_UNIT + p),
        GainLaw::EqualPower => (
            floor_sqrt((PAN_UNIT - p) * GAIN_UNIT),
            floor_sqrt((PAN_UNIT + p) * GAIN_UNIT),
        ),
    }
}

/// A square root rounded down is unique.
proof fn lemma_floor_sqrt_unique(r1: int, r2: int, n: int)
    requires
        is_floor_sqrt(r1, n),
        is_floor_sqrt(r2, n),
    ensures
        r1 == r2,
{
    if r1 < r2 {
        assert((r1 + 1) * (r1 + 1) <= r2 * r2) by (nonlinear_arith)
            requires
                0 <= r1 + 1 <= r2,
        ;
    }
    if r2 < r1 {
        assert((r2 + 1) * (r2 + 1) <= r1 * r1) by (nonlinear_arith)
            requires
                0 <= r2 + 1 <= r1,
        ;
    }
}

/// Any root rounded down that is found is the one `floor_sqrt` names.
proof fn lemma_floor_sqrt_is(r: int, n: int)
    requires
        is_floor_sqrt(r, n),
    ensures
        floor_sqrt(n) == r,
{
    lemma_floor_sqrt_unique(floor_sqrt(n), r, n);
}

/// The square root of `n`, rounded down, by bisection.
fn isqrt(n: u64) -> (r: u32)
    requires
        n <= GAIN_UNIT * GAIN_UNIT,
    ensures
        r == floor_sqrt(n as int),
        r <= GAIN_UNIT,
{
    let mut lo: u64 = 0;
    let mut hi: u64 = GAIN_UNIT as u64 + 1;
    while hi - lo > 1
        invariant
            lo < hi <= GAIN_UNIT + 1,
            lo * lo <= n,
            n < hi * hi,
        decreases hi - lo,
    {
        let mid: u64 = lo + (hi - lo) / 2;
        assert(mid * mid <= 33554433 * 33554433) by (nonlinear_arith)
            requires
                mid <= 33554433,
        ;
        if mid * mid <= n {
            lo = mid;
        } else {
            hi = mid;
        }
    }
    proof {
        assert(hi == lo + 1);
        lemma_floor_sqrt_is(lo as int, n as int);
        if lo > GAIN_UNIT {
            assert(lo * lo > GAIN_UNIT * GAIN_UNIT) by (nonlinear_arith)
                requires
                    lo > GAIN_UNIT,
            ;
        }
    }
    lo as u32
}

impl GainLaw {
    /// The gains at pan position `p`. The result depends on the law and on
    /// `p` alone.
    pub fn gains(&self, p: i32) -> (r: GainPair)
        requires
            in_pan_range(p as int),
        ensures
            (r.left as int, r.right as int) == law_gains(*self, p as int),
            r.left <= GAIN_UNIT,
            r.right <= GAIN_UNIT,
    {
        match self {
            GainLaw::Linear => GainPair {
                left: (PAN_UNIT - p) as u32,
                right: (PAN_UNIT + p) as u32,
            },
            GainLaw::EqualPower => {
                let l: u64 = (PAN_UNIT - p) as u64;
                let r: u64 = (PAN_UNIT + p) as u64;
                assert(l * GAIN_UNIT <= GAIN_UNIT * GAIN_UNIT) by (nonlinear_arith)
                    requires
                        l <= GAIN_UNIT,
                ;
                assert(r * GAIN_UNIT <= GAIN_UNIT * GAIN_UNIT) by (nonlinear_arith)
                    requires
                        r <= GAIN_UNIT,
                ;
                GainPair {
                    left: isqrt(l * GAIN_UNIT as u64),
                    right: isqrt(r * GAIN_UNIT as u64),
                }
            },
        }
    }
}

/// Computing the gains is free of hidden state: two results that meet the
/// contract of `GainLaw::gains` for the same law and position are equal.
pub proof fn lemma_gains_are_pure(law: GainLaw, p: int, g1: GainPair, g2: GainPair)
    requires
        (g1.left as int, g1.right as int) == law_gains(law, p),
        (g2.left as int, g2.right as int) == law_gains(law, p),
    ensures
        g1 == g2,
{
}

/// Under the linear law the two gains sum to unity, exactly, at every
/// position of the pan range.
pub proof fn lemma_linear_gains_sum_to_unity(p: int)
    requires
        in_pan_range(p),
    ensures
        law_gains(GainLaw::Linear, p).0 + law_gains(GainLaw::Linear, p).1 == GAIN_UNIT,
        law_gains(GainLaw::Linear, p).0 >= 0,
        law_gains(GainLaw::Linear, p).1 >= 0,
{
}

/// Under the equal-power law the squares of the two gains sum to unity at
/// every position of the pan range, short of it by at most the rounding of
/// the two roots (`4 / GAIN_UNIT` of unity).
pub proof fn lemma_equal_power_squares_sum_to_unity(p: int)
    requires
        in_pan_range(p),
    ensures
        ({
            let (l, r) = law_gains(GainLaw::EqualPower, p);
            &&& 0 <= l <= GAIN_UNIT
            &&& 0 <= r <= GAIN_UNIT
            &&& GAIN_UNIT * GAIN_UNIT - 4 * GAIN_UNIT <= l * l + r * r <= GAIN_UNIT * GAIN_UNIT
        }),
{
    let nl = (PAN_UNIT - p) * GAIN_UNIT;
    let nr = (PAN_UNIT + p) * GAIN_UNIT;
    assert(0 <= nl <= GAIN_UNIT * GAIN_UNIT) by (nonlinear_arith)
        requires
            0 <= PAN_UNIT - p <= GAIN_UNIT,
            nl == (PAN_UNIT - p) * GAIN_UNIT,
    ;
    assert(0 <= nr <= GAIN_UNIT * GAIN_UNIT) by (nonlinear_arith)
        requires
            0 <= PAN_UNIT + p <= GAIN_UNIT,
            nr == (PAN_UNIT + p) * GAIN_UNIT,
    ;
    let l = find_floor_sqrt(nl);
    let r = find_floor_sqrt(nr);
    lemma_floor_sqrt_is(l, nl);
    lemma_floor_sqrt_is(r, nr);
    assert(nl + nr == GAIN_UNIT * GAIN_UNIT);
    assert(l <= GAIN_UNIT) by (nonlinear_arith)
        requires
            l >= 0,
            l * l <= GAIN_UNIT * GAIN_UNIT,
    ;
    assert(r <= GAIN_UNIT) by (nonlinear_arith)
        requires
            r >= 0,
            r * r <= GAIN_UNIT * GAIN_UNIT,
    ;
    assert(l * l + r * r >= nl + nr - 2 * l - 2 * r) by (nonlinear_arith)
        requires
            nl < (l + 1) * (l + 1),
            nr < (r + 1) * (r + 1),
    ;
}

/// A square root rounded down exists for every `n` from zero to unity squared.
proof fn find_floor_sqrt(n: int) -> (r: int)
    requires
        0 <= n <= GAIN_UNIT * GAIN_UNIT,
    ensures
        is_floor_sqrt(r, n),
    decreases GAIN_UNIT * GAIN_UNIT - n,
{
    if n == GAIN_UNIT * GAIN_UNIT {
        assert(is_floor_sqrt(GAIN_UNIT as int, n)) by (nonlinear_arith)
            requires
                n == GAIN_UNIT * GAIN_UNIT,
        ;
        GAIN_UNIT as int
    } else {
        let r1 = find_floor_sqrt(n + 1);
        if r1 * r1 <= n {
            r1
        } else {
            assert(is_floor_sqrt(r1 - 1, n)) by (nonlinear_arith)
                requires
                    r1 * r1 == n + 1,
                    r1 >= 1,
            ;
            r1 - 1
        }
    }
}

} // verus!
