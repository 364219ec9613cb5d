//! Exact fractions and the quadratic falloff used to thin out the partition.

use vstd::prelude::*;

verus! {

/// The denominator of every factor that is given in thousandths.
pub const THOUSAND: u32 = 1000;

/// A non-negative fraction `num / den`.
#[derive(Clone, Copy, Debug, PartialEq, Eq, Structural)]
pub struct Ratio {
    pub num: u64,
    pub den: u64,
}

impl Ratio {
    /// A fraction has a positive denominator.
    pub open spec fn wf(&self) -> bool {
        self.den > 0
    }

    /// The fraction equals one.
    pub open spec fn is_one(&self) -> bool {
        self.wf() && self.num == self.den
    }

    /// The fraction equals zero.
    pub open spec fn is_zero(&self) -> bool {
        self.wf() && self.num == 0
    }
}

/// Numerator of `f(x / m)` over the denominator `m * m`, where
/// `f(t) = (t - 2) * t + 1`.
pub open spec fn falloff_num(x: int, m: int) -> int {
    (x - 2 * m) * x + m * m
}

/// Denominator that goes with [`falloff_num`].
pub open spec fn falloff_den(m: int) -> int {
    m * m
}

/// The falloff numerator is the square of the distance from `x` to `m`.
pub proof fn lemma_falloff_is_square(x: int, m: int)
    ensures
        falloff_num(x, m) == (m - x) * (m - x),
        falloff_num(x, m) >= 0,
{
    assert((x - 2 * m) * x + m * m == (m - x) * (m - x)) by (nonlinear_arith);
    assert((m - x) * (m - x) >= 0) by (nonlinear_arith);
}

/// Between the ends the falloff stays between zero and one.
pub proof fn lemma_falloff_bounded(x: int, m: int)
    requires
        0 <= x <= m,
    ensures
        0 <= falloff_num(x, m) <= falloff_den(m),
{
    lemma_falloff_is_square(x, m);
    assert((m - x) * (m - x) <= m * m) by (nonlinear_arith)
        requires
            0 <= x <= m,
    ;
}

/// `f(0) = 1` and `f(1) = 0`: at `x = 0` the numerator equals the
/// denominator, at `x = m` it vanishes.
pub proof fn lemma_falloff_ends(m: int)
    requires
        m > 0,
    ensures
        falloff_num(0, m) == falloff_den(m),
        falloff_den(m) > 0,
        falloff_num(m, m) == 0,
{
    assert(m * m > 0) by (nonlinear_arith)
        requires
            m > 0,
    ;
    assert((m - 2 * m) * m + m * m == 0) by (nonlinear_arith);
}

/// The falloff `f(t) = (t - 2) * t + 1` at `t = x / m`, as an exact fraction.
pub fn trunc_falloff(x: u32, m: u32) -> (f: Ratio)
    requires
        m > 0,
    ensures
        f.wf(),
        f.num == falloff_num(x as int, m as int),
        f.den == falloff_den(m as int),
        x == 0 ==> f.is_one(),
        x == m ==> f.is_zero(),
{
    let d: u64 = if x <= m {
        (m - x) as u64
    } else {
        (x - m) as u64
    };
    let wide: u64 = m as u64;
    proof {
        lemma_falloff_is_square(x as int, m as int);
        lemma_falloff_ends(m as int);
        assert(d * d == (m - x) * (m - x)) by (nonlinear_arith)
            requires
                d == m - x || d == x - m,
        ;
        assert(d * d <= 0xffff_ffff * 0xffff_ffff) by (nonlinear_arith)
            requires
                0 <= d <= 0xffff_ffff,
        ;
        assert(wide * wide <= 0xffff_ffff * 0xffff_ffff) by (nonlinear_arith)
            requires
                0 <= wide <= 0xffff_ffff,
        ;
    }
    Ratio { num: d * d, den: wide * wide }
}

/// `v / d` rounded toward zero.
pub open spec fn toward_zero(v: int, d: int) -> int {
    if v >= 0 {
        v / d
    } else {
        -((-v) / d)
    }
}

/// Divides and rounds toward zero.
pub fn div_toward_zero(v: i64, d: i64) -> (q: i64)
    requires
        d > 0,
    ensures
        q == toward_zero(v as int, d as int),
{
    v / d
}

} // verus!
